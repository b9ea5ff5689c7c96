//! The order in which the entries of one directory are shown.

use vstd::prelude::*;
use vstd::string::StringExecFns;
use crate::entry::Entry;
use crate::error::ConfigError;
use crate::text::chars_of;
use crate::text::equals;

verus! {

/// How one entry stands to another.
#[derive(Clone, Copy, Debug, PartialEq, Eq, Structural)]
pub enum Order {
    Less,
    Equal,
    Greater,
}

/// The key by which siblings are sorted.
#[derive(Clone, Copy, Debug, PartialEq, Eq, Structural)]
pub enum SortMode {
    /// The order of the listing is kept.
    Unsorted,
    /// By name, character by character.
    Name,
    /// By time of last modification, the latest first.
    Modified,
}

/// An ordering of sibling entries.
#[derive(Clone, Copy, Debug, PartialEq, Eq, Structural)]
pub struct Comparator {
    pub mode: SortMode,
    /// Whether the order by the key is inverted.
    pub reversed: bool,
    /// Whether directories go before everything else, whatever the key says.
    pub directories_first: bool,
}

/// The sort mode that a name stands for: `none`, `name` or `modified`.
pub open spec fn sort_mode_named(name: Seq<char>) -> Option<SortMode> {
    if name == "none"@ {
        Some(SortMode::Unsorted)
    } else if name == "name"@ {
        Some(SortMode::Name)
    } else if name == "modified"@ {
        Some(SortMode::Modified)
    } else {
        None
    }
}

/// The ordering for a sort mode given by name. A name that stands for no sort
/// mode is an error that holds it.
pub fn get_comparator(comparator_name: &str, reversed: bool, directory_first: bool) -> (r: Result<
    Comparator,
    ConfigError,
>)
    ensures
        match r {
            Ok(c) => sort_mode_named(comparator_name@) == Some(c.mode) && c.reversed == reversed
                && c.directories_first == directory_first,
            Err(e) => sort_mode_named(comparator_name@) is None && e is UnknownSortMode
                && e.token() == comparator_name@,
        },
{
    let mode = if equals(comparator_name, "none") {
        SortMode::Unsorted
    } else if equals(comparator_name, "name") {
        SortMode::Name
    } else if equals(comparator_name, "modified") {
        SortMode::Modified
    } else {
        return Err(ConfigError::UnknownSortMode(String::from_str(comparator_name)));
    };
    Ok(Comparator { mode, reversed, directories_first: directory_first })
}

/// The opposite of `o`.
pub open spec fn reverse_of(o: Order) -> Order {
    match o {
        Order::Less => Order::Greater,
        Order::Equal => Order::Equal,
        Order::Greater => Order::Less,
    }
}

/// Whether `a` has the smaller code point.
pub open spec fn char_before(a: char, b: char) -> bool {
    (a as int) < (b as int)
}

/// Lexicographic order of names by code point: the first character in which
/// two names differ decides, and a name goes before each of its extensions.
pub open spec fn name_order(a: Seq<char>, b: Seq<char>) -> Order
    decreases a.len(),
{
    if a.len() == 0 {
        if b.len() == 0 {
            Order::Equal
        } else {
            Order::Less
        }
    } else if b.len() == 0 {
        Order::Greater
    } else if a[0] == b[0] {
        name_order(a.drop_first(), b.drop_first())
    } else if char_before(a[0], b[0]) {
        Order::Less
    } else {
        Order::Greater
    }
}

/// Order by modification time, the later time first.
pub open spec fn time_order(a: int, b: int) -> Order {
    if a > b {
        Order::Less
    } else if a < b {
        Order::Greater
    } else {
        Order::Equal
    }
}

/// A directory goes before an entry that is none; two of a kind are equal.
pub open spec fn directory_order(a_is_directory: bool, b_is_directory: bool) -> Order {
    if a_is_directory && !b_is_directory {
        Order::Less
    } else if b_is_directory && !a_is_directory {
        Order::Greater
    } else {
        Order::Equal
    }
}

impl Comparator {
    /// The order by the sort key alone.
    pub open spec fn key_order(self, a: Entry, b: Entry) -> Order {
        match self.mode {
            SortMode::Unsorted => Order::Equal,
            SortMode::Name => name_order(a.name@, b.name@),
            SortMode::Modified => time_order(a.modified as int, b.modified as int),
        }
    }

    /// How `a` stands to `b`: where directories go first and exactly one of the
    /// two is a directory, that decides; otherwise the key decides, inverted
    /// where the order is reversed.
    pub open spec fn order(self, a: Entry, b: Entry) -> Order {
        let by_kind = directory_order(a.is_directory, b.is_directory);
        if self.directories_first && by_kind != Order::Equal {
            by_kind
        } else if self.reversed {
            reverse_of(self.key_order(a, b))
        } else {
            self.key_order(a, b)
        }
    }

    /// How `a` stands to `b` in this ordering.
    pub fn compare(&self, a: &Entry, b: &Entry) -> (o: Order)
        ensures
            o == self.order(*a, *b),
    {
        if self.directories_first {
            let by_kind = directory_comparator(a, b);
            match by_kind {
                Order::Equal => {},
                _ => {
                    return by_kind;
                },
            }
        }
        let by_key = match self.mode {
            SortMode::Unsorted => Order::Equal,
            SortMode::Name => name_comparator(a, b),
            SortMode::Modified => last_modified_comparator(a, b),
        };
        if self.reversed {
            reverse(by_key)
        } else {
            by_key
        }
    }
}

/// The opposite of `o`.
pub fn reverse(o: Order) -> (r: Order)
    ensures
        r == reverse_of(o),
{
    match o {
        Order::Less => Order::Greater,
        Order::Equal => Order::Equal,
        Order::Greater => Order::Less,
    }
}

proof fn lemma_name_order_step(a: Seq<char>, b: Seq<char>, i: int)
    requires
        0 <= i < a.len(),
        i < b.len(),
        a[i] == b[i],
    ensures
        name_order(a.skip(i), b.skip(i)) == name_order(a.skip(i + 1), b.skip(i + 1)),
{
    assert(a.skip(i).drop_first() =~= a.skip(i + 1));
    assert(b.skip(i).drop_first() =~= b.skip(i + 1));
}

/// Compares two entries by name.
pub fn name_comparator(d1: &Entry, d2: &Entry) -> (o: Order)
    ensures
        o == name_order(d1.name@, d2.name@),
{
    let a = chars_of(d1.name.as_str());
    let b = chars_of(d2.name.as_str());
    let mut i: usize = 0;
    assert(a@.skip(0) =~= a@ && b@.skip(0) =~= b@);
    while i < a.len() && i < b.len()
        invariant
            i <= a.len(),
            i <= b.len(),
            a@ == d1.name@,
            b@ == d2.name@,
            name_order(a@, b@) == name_order(a@.skip(i as int), b@.skip(i as int)),
        decreases a.len() - i,
    {
        let x = a[i];
        let y = b[i];
        if x != y {
            return if x < y {
                Order::Less
            } else {
                Order::Greater
            };
        }
        proof {
            lemma_name_order_step(a@, b@, i as int);
        }
        i += 1;
    }
    if i == a.len() {
        if i == b.len() {
            Order::Equal
        } else {
            Order::Less
        }
    } else {
        Order::Greater
    }
}

/// Puts a directory before an entry that is none.
pub fn directory_comparator(d1: &Entry, d2: &Entry) -> (o: Order)
    ensures
        o == directory_order(d1.is_directory, d2.is_directory),
{
    if d1.is_directory && !d2.is_directory {
        Order::Less
    } else if d2.is_directory && !d1.is_directory {
        Order::Greater
    } else {
        Order::Equal
    }
}

/// Compares two entries by modification time, the later one first.
pub fn last_modified_comparator(d1: &Entry, d2: &Entry) -> (o: Order)
    ensures
        o == time_order(d1.modified as int, d2.modified as int),
{
    if d1.modified > d2.modified {
        Order::Less
    } else if d1.modified < d2.modified {
        Order::Greater
    } else {
        Order::Equal
    }
}

/// A name is equal to itself in the order of names, and to no other name.
pub proof fn lemma_name_order_equal(a: Seq<char>, b: Seq<char>)
    ensures
        name_order(a, b) == Order::Equal <==> a == b,
    decreases a.len(),
{
    if a.len() == 0 || b.len() == 0 {
        if a.len() == 0 && b.len() == 0 {
            assert(a =~= b);
        }
    } else if a[0] == b[0] {
        lemma_name_order_equal(a.drop_first(), b.drop_first());
        if a.drop_first() == b.drop_first() {
            assert(a =~= seq![a[0]] + a.drop_first());
            assert(b =~= seq![b[0]] + b.drop_first());
        }
    }
}

/// Swapping two names turns their order round.
pub proof fn lemma_name_order_antisymmetric(a: Seq<char>, b: Seq<char>)
    ensures
        name_order(b, a) == reverse_of(name_order(a, b)),
    decreases a.len(),
{
    if a.len() > 0 && b.len() > 0 && a[0] == b[0] {
        lemma_name_order_antisymmetric(a.drop_first(), b.drop_first());
    }
}

/// The order of names is transitive: where `a` is not after `b` and `b` not
/// after `c`, `a` is not after `c`, and is before it if either step was strict.
pub proof fn lemma_name_order_transitive(a: Seq<char>, b: Seq<char>, c: Seq<char>)
    requires
        name_order(a, b) != Order::Greater,
        name_order(b, c) != Order::Greater,
    ensures
        name_order(a, c) != Order::Greater,
        name_order(a, b) == Order::Less || name_order(b, c) == Order::Less ==> name_order(a, c)
            == Order::Less,
    decreases a.len(),
{
    if a.len() > 0 && b.len() > 0 && c.len() > 0 && a[0] == b[0] && b[0] == c[0] {
        lemma_name_order_transitive(a.drop_first(), b.drop_first(), c.drop_first());
    }
}

impl Comparator {
    /// Every entry is equal to itself.
    pub proof fn lemma_reflexive(self, a: Entry)
        ensures
            self.order(a, a) == Order::Equal,
    {
        lemma_name_order_equal(a.name@, a.name@);
    }

    /// Swapping the two entries turns the order round.
    pub proof fn lemma_antisymmetric(self, a: Entry, b: Entry)
        ensures
            self.order(b, a) == reverse_of(self.order(a, b)),
    {
        lemma_name_order_antisymmetric(a.name@, b.name@);
    }

    /// The ordering is transitive, with equality as an equivalence: where `a`
    /// is not after `b` and `b` not after `c`, `a` is not after `c`, and is
    /// before it if either step was strict. With the two laws above this makes
    /// every comparator a strict weak ordering, the reversed ones too.
    pub proof fn lemma_transitive(self, a: Entry, b: Entry, c: Entry)
        requires
            self.order(a, b) != Order::Greater,
            self.order(b, c) != Order::Greater,
        ensures
            self.order(a, c) != Order::Greater,
            self.order(a, b) == Order::Less || self.order(b, c) == Order::Less ==> self.order(a, c)
                == Order::Less,
    {
        lemma_name_order_antisymmetric(a.name@, b.name@);
        lemma_name_order_antisymmetric(b.name@, c.name@);
        lemma_name_order_antisymmetric(a.name@, c.name@);
        if name_order(a.name@, b.name@) != Order::Greater && name_order(b.name@, c.name@)
            != Order::Greater {
            lemma_name_order_transitive(a.name@, b.name@, c.name@);
        }
        if name_order(c.name@, b.name@) != Order::Greater && name_order(b.name@, a.name@)
            != Order::Greater {
            lemma_name_order_transitive(c.name@, b.name@, a.name@);
        }
    }

    /// Reversing an ordering that does not put directories first turns every
    /// comparison round.
    pub proof fn lemma_reversal(self, a: Entry, b: Entry)
        requires
            !self.directories_first,
        ensures
            (Comparator { reversed: !self.reversed, ..self }).order(a, b) == reverse_of(
                self.order(a, b),
            ),
    {
    }
}

} // verus!
