//! Which entries of a listing are shown, and in what order.

use vstd::prelude::*;
use vstd::relations::sorted_by;
use vstd::relations::total_ordering;
use vstd::seq_lib::group_filter_ensures;
use vstd::seq_lib::group_to_multiset_ensures;
use vstd::seq_lib::lemma_multiset_commutative;
use vstd::seq_lib::lemma_sorted_unique;
use vstd::seq_lib::to_multiset_build;
use vstd::multiset::group_multiset_axioms;
use vstd::multiset::Multiset;
use crate::config::TraversalConfig;
use crate::entry::Entry;
use crate::order::name_order;
use crate::order::Order;
use crate::order::SortMode;

verus! {

/// The numbers from 0 up to `n`, without `n`.
pub open spec fn indices(n: nat) -> Seq<int> {
    Seq::new(n, |i: int| i)
}

/// Positions as integers.
pub open spec fn as_ints(s: Seq<usize>) -> Seq<int> {
    s.map_values(|i: usize| i as int)
}

impl TraversalConfig {
    /// Whether the entry at `i` is shown no later than the one at `j`: the
    /// comparator decides, and of two entries that it holds equal the one that
    /// the listing has first stays first.
    pub open spec fn not_after(self, entries: Seq<Entry>, i: int, j: int) -> bool {
        match self.comparator.order(entries[i], entries[j]) {
            Order::Less => true,
            Order::Equal => i <= j,
            Order::Greater => false,
        }
    }

    /// `not_after` as a relation on the positions of one listing.
    pub open spec fn position_order(self, entries: Seq<Entry>) -> spec_fn(int, int) -> bool {
        |i: int, j: int| self.not_after(entries, i, j)
    }

    /// The test for the positions whose entries are shown.
    pub open spec fn shown_at(self, entries: Seq<Entry>) -> spec_fn(int) -> bool {
        |i: int| self.keeps(entries[i])
    }

    /// The positions of the entries that are shown, as the listing has them.
    pub open spec fn kept_indices(self, entries: Seq<Entry>) -> Seq<int> {
        indices(entries.len()).filter(self.shown_at(entries))
    }

    /// The positions of the entries that are shown, in the order in which they
    /// are shown.
    pub open spec fn visiting_order(self, entries: Seq<Entry>) -> Seq<int> {
        self.kept_indices(entries).sort_by(self.position_order(entries))
    }

    /// The order of positions is total, whatever the listing holds.
    pub proof fn lemma_position_order_total(self, entries: Seq<Entry>)
        ensures
            total_ordering(self.position_order(entries)),
    {
        let r = self.position_order(entries);
        assert forall|x: int| #[trigger] r(x, x) by {
            self.comparator.lemma_reflexive(entries[x]);
        }
        assert forall|x: int, y: int| #[trigger] r(x, y) && #[trigger] r(y, x) implies x == y by {
            self.comparator.lemma_antisymmetric(entries[x], entries[y]);
        }
        assert forall|x: int, y: int, z: int| #[trigger] r(x, y) && #[trigger] r(y, z) implies r(
            x,
            z,
        ) by {
            self.comparator.lemma_transitive(entries[x], entries[y], entries[z]);
        }
        assert forall|x: int, y: int| #[trigger] r(x, y) || #[trigger] r(y, x) by {
            self.comparator.lemma_antisymmetric(entries[x], entries[y]);
        }
    }

    /// The test for the entries that are left out.
    pub open spec fn left_out(self) -> spec_fn(Entry) -> bool {
        |e: Entry| !self.keeps(e)
    }

    proof fn lemma_count_up_to(self, entries: Seq<Entry>, n: nat)
        requires
            n <= entries.len(),
        ensures
            indices(n).filter(self.shown_at(entries)).len() + entries.take(n as int).filter(
                self.left_out(),
            ).len() == n,
        decreases n,
    {
        if n == 0 {
            assert(indices(0).filter(self.shown_at(entries)).len() == 0 && entries.take(0).filter(
                self.left_out(),
            ).len() == 0) by {
                reveal(Seq::filter);
            }
        } else {
            let m = (n - 1) as nat;
            self.lemma_count_up_to(entries, m);
            assert(indices(n) =~= indices(m).push(m as int));
            assert(entries.take(n as int) =~= entries.take(m as int).push(entries[m as int]));
            indices(m).lemma_filter_len_push(self.shown_at(entries), m as int);
            entries.take(m as int).lemma_filter_len_push(self.left_out(), entries[m as int]);
        }
    }

    proof fn lemma_kept_rising(self, entries: Seq<Entry>, n: nat)
        ensures
            forall|k: int|
                0 <= k < indices(n).filter(self.shown_at(entries)).len() ==> 0 <= (
                #[trigger] indices(n).filter(self.shown_at(entries))[k]) < n,
            forall|a: int, b: int|
                0 <= a < b < indices(n).filter(self.shown_at(entries)).len() ==> (
                #[trigger] indices(n).filter(self.shown_at(entries))[a]) < (#[trigger] indices(
                    n,
                ).filter(self.shown_at(entries))[b]),
        decreases n,
    {
        if n == 0 {
            assert(indices(0).filter(self.shown_at(entries)).len() == 0) by {
                reveal(Seq::filter);
            }
        } else {
            let m = (n - 1) as nat;
            self.lemma_kept_rising(entries, m);
            assert(indices(n) =~= indices(m).push(m as int));
            indices(m).lemma_filter_push(m as int, self.shown_at(entries));
        }
    }

    /// As many entries of a listing are shown as it holds, less those that the
    /// filter leaves out.
    pub proof fn lemma_shown_count(self, entries: Seq<Entry>)
        ensures
            self.visiting_order(entries).len() == entries.len() - entries.filter(
                self.left_out(),
            ).len(),
    {
        broadcast use group_to_multiset_ensures;

        self.lemma_count_up_to(entries, entries.len());
        assert(entries.take(entries.len() as int) =~= entries);
        self.lemma_position_order_total(entries);
        let kept = self.kept_indices(entries);
        kept.lemma_sort_by_ensures(self.position_order(entries));
        assert(self.visiting_order(entries).to_multiset().len() == self.visiting_order(
            entries,
        ).len());
    }

    /// The visiting order holds the position of every entry that is shown,
    /// once, and no other.
    pub proof fn lemma_visiting_order_members(self, entries: Seq<Entry>)
        ensures
            self.visiting_order(entries).no_duplicates(),
            forall|i: int|
                self.visiting_order(entries).contains(i) <==> 0 <= i < entries.len() && self.keeps(
                    entries[i],
                ),
            forall|k: int|
                0 <= k < self.visiting_order(entries).len() ==> 0 <= (
                #[trigger] self.visiting_order(entries)[k]) < entries.len(),
    {
        broadcast use group_to_multiset_ensures;
        broadcast use group_filter_ensures;

        let all = indices(entries.len());
        let kept = self.kept_indices(entries);
        let order = self.visiting_order(entries);
        let r = self.position_order(entries);
        self.lemma_position_order_total(entries);
        kept.lemma_sort_by_ensures(r);
        assert forall|i: int| order.contains(i) <==> 0 <= i < entries.len() && self.keeps(
            entries[i],
        ) by {
            if order.contains(i) {
                assert(kept.to_multiset().count(i) > 0);
                all.lemma_filter_contains_rev(self.shown_at(entries), i);
            }
            if 0 <= i < entries.len() && self.keeps(entries[i]) {
                assert(all[i] == i);
            }
        }
        self.lemma_kept_rising(entries, entries.len());
        kept.lemma_multiset_has_no_duplicates();
        order.lemma_multiset_has_no_duplicates_conv();
        assert forall|k: int| 0 <= k < order.len() implies 0 <= (#[trigger] order[k])
            < entries.len() by {
            assert(order.contains(order[k]));
        }
    }

    /// The visiting order is the only row of positions that holds the position
    /// of every entry that is shown, once, and no other, and in which no
    /// position stands before one that it is to come after.
    pub proof fn lemma_visiting_order_unique(self, entries: Seq<Entry>, order: Seq<int>)
        requires
            order.no_duplicates(),
            forall|i: int|
                order.contains(i) <==> 0 <= i < entries.len() && self.keeps(entries[i]),
            forall|a: int, b: int|
                0 <= a < b < order.len() ==> self.not_after(entries, order[a], order[b]),
        ensures
            order == self.visiting_order(entries),
    {
        broadcast use group_to_multiset_ensures;

        let r = self.position_order(entries);
        let known = self.visiting_order(entries);
        self.lemma_visiting_order_members(entries);
        self.lemma_position_order_total(entries);
        self.kept_indices(entries).lemma_sort_by_ensures(r);
        order.lemma_multiset_has_no_duplicates();
        known.lemma_multiset_has_no_duplicates();
        assert(order.to_multiset() =~= known.to_multiset());
        assert(sorted_by(order, r)) by {
            assert forall|a: int, b: int| 0 <= a < b < order.len() implies #[trigger] r(
                order[a],
                order[b],
            ) by {}
        }
        lemma_sorted_unique(order, known, r);
    }

    /// Siblings are shown in the order of the comparator: of two that are
    /// shown, the later one never goes before the earlier one. So with
    /// directories first no directory follows an entry that is none, and where
    /// names alone decide they never fall, or never rise if the order is
    /// reversed.
    pub proof fn lemma_siblings_in_order(self, entries: Seq<Entry>, a: int, b: int)
        requires
            0 <= a < b < self.visiting_order(entries).len(),
        ensures
            self.comparator.order(
                entries[self.visiting_order(entries)[a]],
                entries[self.visiting_order(entries)[b]],
            ) != Order::Greater,
            self.comparator.directories_first ==> entries[self.visiting_order(
                entries,
            )[a]].is_directory || !entries[self.visiting_order(entries)[b]].is_directory,
            self.comparator.mode == SortMode::Name && !self.comparator.directories_first
                && !self.comparator.reversed ==> name_order(
                entries[self.visiting_order(entries)[a]].name@,
                entries[self.visiting_order(entries)[b]].name@,
            ) != Order::Greater,
            self.comparator.mode == SortMode::Name && !self.comparator.directories_first
                && self.comparator.reversed ==> name_order(
                entries[self.visiting_order(entries)[a]].name@,
                entries[self.visiting_order(entries)[b]].name@,
            ) != Order::Less,
    {
        let r = self.position_order(entries);
        self.lemma_position_order_total(entries);
        self.kept_indices(entries).lemma_sort_by_ensures(r);
        assert(r(self.visiting_order(entries)[a], self.visiting_order(entries)[b]));
    }

    fn shown_no_later(&self, entries: &Vec<Entry>, i: usize, j: usize) -> (r: bool)
        requires
            i < entries.len(),
            j < entries.len(),
        ensures
            r == self.not_after(entries@, i as int, j as int),
    {
        match self.comparator.compare(&entries[i], &entries[j]) {
            Order::Less => true,
            Order::Equal => i <= j,
            Order::Greater => false,
        }
    }

    fn kept(&self, entries: &Vec<Entry>) -> (v: Vec<usize>)
        ensures
            as_ints(v@) == self.kept_indices(entries@),
            forall|k: int| 0 <= k < v.len() ==> v@[k] < entries.len(),
    {
        broadcast use group_filter_ensures;

        let mut v: Vec<usize> = Vec::new();
        let mut i: usize = 0;
        assert(as_ints(v@) =~= indices(0).filter(self.shown_at(entries@))) by {
            reveal(Seq::filter);
        }
        while i < entries.len()
            invariant
                i <= entries.len(),
                as_ints(v@) == indices(i as nat).filter(self.shown_at(entries@)),
                forall|k: int| 0 <= k < v.len() ==> v@[k] < entries.len(),
            decreases entries.len() - i,
        {
            let keep = self.path_filter(&entries[i]);
            proof {
                assert(indices((i + 1) as nat) =~= indices(i as nat).push(i as int));
                indices(i as nat).lemma_filter_push(i as int, self.shown_at(entries@));
            }
            if keep {
                v.push(i);
            }
            i += 1;
        }
        v
    }

    fn merge(&self, entries: &Vec<Entry>, a: &Vec<usize>, b: &Vec<usize>) -> (out: Vec<usize>)
        requires
            forall|k: int| 0 <= k < a.len() ==> a@[k] < entries.len(),
            forall|k: int| 0 <= k < b.len() ==> b@[k] < entries.len(),
            sorted_by(as_ints(a@), self.position_order(entries@)),
            sorted_by(as_ints(b@), self.position_order(entries@)),
        ensures
            forall|k: int| 0 <= k < out.len() ==> out@[k] < entries.len(),
            sorted_by(as_ints(out@), self.position_order(entries@)),
            as_ints(out@).to_multiset() == as_ints(a@).to_multiset().add(as_ints(b@).to_multiset()),
    {
        broadcast use group_multiset_axioms;

        let ghost r = self.position_order(entries@);
        proof {
            self.lemma_position_order_total(entries@);
        }
        let mut out: Vec<usize> = Vec::new();
        let mut i: usize = 0;
        let mut j: usize = 0;
        assert(as_ints(a@).take(0) =~= Seq::<int>::empty());
        assert(as_ints(b@).take(0) =~= Seq::<int>::empty());
        assert(as_ints(out@) =~= Seq::<int>::empty());
        assert(Seq::<int>::empty().to_multiset() =~= Multiset::<int>::empty()) by {
            broadcast use group_to_multiset_ensures;

        }
        while i < a.len() || j < b.len()
            invariant
                i <= a.len(),
                j <= b.len(),
                r == self.position_order(entries@),
                total_ordering(r),
                forall|k: int| 0 <= k < a.len() ==> a@[k] < entries.len(),
                forall|k: int| 0 <= k < b.len() ==> b@[k] < entries.len(),
                sorted_by(as_ints(a@), r),
                sorted_by(as_ints(b@), r),
                forall|k: int| 0 <= k < out.len() ==> out@[k] < entries.len(),
                sorted_by(as_ints(out@), r),
                forall|k: int, p: int|
                    0 <= k < out.len() && i <= p < a.len() ==> r(
                        #[trigger] as_ints(out@)[k],
                        #[trigger] as_ints(a@)[p],
                    ),
                forall|k: int, q: int|
                    0 <= k < out.len() && j <= q < b.len() ==> r(
                        #[trigger] as_ints(out@)[k],
                        #[trigger] as_ints(b@)[q],
                    ),
                as_ints(out@).to_multiset() == as_ints(a@).take(i as int).to_multiset().add(
                    as_ints(b@).take(j as int).to_multiset(),
                ),
            decreases a.len() - i + b.len() - j,
        {
            let from_a = if j == b.len() {
                true
            } else if i == a.len() {
                false
            } else {
                self.shown_no_later(entries, a[i], b[j])
            };
            let ghost before = as_ints(out@);
            if from_a {
                let x = a[i];
                out.push(x);
                proof {
                    let xi = as_ints(a@)[i as int];
                    assert(as_ints(out@) =~= before.push(xi));
                    assert(as_ints(a@).take(i + 1) =~= as_ints(a@).take(i as int).push(xi));
                    to_multiset_build(before, xi);
                    to_multiset_build(as_ints(a@).take(i as int), xi);
                    assert(as_ints(out@).to_multiset() =~= as_ints(a@).take(
                        i + 1,
                    ).to_multiset().add(as_ints(b@).take(j as int).to_multiset()));
                    assert forall|q: int| j <= q < b.len() implies r(
                        xi,
                        #[trigger] as_ints(b@)[q],
                    ) by {
                        assert(r(xi, as_ints(b@)[j as int]));
                        assert(q == j || r(as_ints(b@)[j as int], as_ints(b@)[q]));
                    }
                }
                i += 1;
            } else {
                let y = b[j];
                out.push(y);
                proof {
                    let yi = as_ints(b@)[j as int];
                    assert(as_ints(out@) =~= before.push(yi));
                    assert(as_ints(b@).take(j + 1) =~= as_ints(b@).take(j as int).push(yi));
                    to_multiset_build(before, yi);
                    to_multiset_build(as_ints(b@).take(j as int), yi);
                    assert(as_ints(out@).to_multiset() =~= as_ints(a@).take(
                        i as int,
                    ).to_multiset().add(as_ints(b@).take(j + 1).to_multiset()));
                    assert forall|p: int| i <= p < a.len() implies r(
                        yi,
                        #[trigger] as_ints(a@)[p],
                    ) by {
                        let xi = as_ints(a@)[i as int];
                        assert(r(xi, yi) || r(yi, xi));
                        assert(p == i || r(xi, as_ints(a@)[p]));
                    }
                }
                j += 1;
            }
        }
        assert(as_ints(a@).take(i as int) =~= as_ints(a@));
        assert(as_ints(b@).take(j as int) =~= as_ints(b@));
        out
    }

    fn sort(&self, entries: &Vec<Entry>, v: &Vec<usize>, from: usize, to: usize) -> (out: Vec<usize>)
        requires
            from <= to <= v.len(),
            forall|k: int| 0 <= k < v.len() ==> v@[k] < entries.len(),
        ensures
            forall|k: int| 0 <= k < out.len() ==> out@[k] < entries.len(),
            sorted_by(as_ints(out@), self.position_order(entries@)),
            as_ints(out@).to_multiset() == as_ints(v@).subrange(from as int, to as int).to_multiset(),
        decreases to - from,
    {
        let ghost part = as_ints(v@).subrange(from as int, to as int);
        if to - from <= 1 {
            let mut out: Vec<usize> = Vec::new();
            if from < to {
                out.push(v[from]);
            }
            assert(as_ints(out@) =~= part);
            out
        } else {
            let mid = from + (to - from) / 2;
            let left = self.sort(entries, v, from, mid);
            let right = self.sort(entries, v, mid, to);
            proof {
                let l = as_ints(v@).subrange(from as int, mid as int);
                let r = as_ints(v@).subrange(mid as int, to as int);
                assert(part =~= l + r);
                lemma_multiset_commutative(l, r);
            }
            self.merge(entries, &left, &right)
        }
    }

    /// The positions in `entries` of the entries that are shown, in the order
    /// in which they are shown.
    pub fn children_order(&self, entries: &Vec<Entry>) -> (order: Vec<usize>)
        ensures
            as_ints(order@) == self.visiting_order(entries@),
            forall|k: int| 0 <= k < order.len() ==> order@[k] < entries.len(),
    {
        let kept = self.kept(entries);
        let order = self.sort(entries, &kept, 0, kept.len());
        proof {
            let r = self.position_order(entries@);
            let all = self.kept_indices(entries@);
            assert(as_ints(kept@).subrange(0, kept.len() as int) =~= all);
            self.lemma_position_order_total(entries@);
            all.lemma_sort_by_ensures(r);
            lemma_sorted_unique(as_ints(order@), all.sort_by(r), r);
        }
        order
    }
}

} // verus!
