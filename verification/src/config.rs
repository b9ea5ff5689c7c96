//! The options of a run, and the texts they are read from.

use vstd::prelude::*;
use vstd::string::StringExecFns;
use vstd::string::StrSliceExecFns;
use crate::branch::MAX_DEPTH;
use crate::entry::Entry;
use crate::error::ConfigError;
use crate::order::Comparator;
use crate::order::SortMode;
use crate::text::chars_of;
use crate::text::has_prefix;
use crate::text::ends_with;
use crate::text::same_chars;

verus! {

/// The depth limit that stands for no limit.
pub const NO_LIMIT: i32 = -1;

/// Whether `c` is one of the ten decimal digits.
pub open spec fn is_digit(c: char) -> bool {
    '0' as int <= c as int <= '9' as int
}

/// Whether `s` holds decimal digits and nothing else.
pub open spec fn all_digits(s: Seq<char>) -> bool {
    forall|i: int| 0 <= i < s.len() ==> is_digit(#[trigger] s[i])
}

/// The number that the digits of `s` write in base ten.
pub open spec fn decimal_value(s: Seq<char>) -> nat
    decreases s.len(),
{
    if s.len() == 0 {
        0
    } else {
        (10 * decimal_value(s.drop_last()) + (s.last() as int - '0' as int)) as nat
    }
}

proof fn lemma_decimal_prefix(s: Seq<char>, i: int)
    requires
        all_digits(s),
        0 <= i <= s.len(),
    ensures
        decimal_value(s.take(i)) <= decimal_value(s),
    decreases s.len(),
{
    if i == s.len() {
        assert(s.take(i) =~= s);
    } else {
        lemma_decimal_prefix(s.drop_last(), i);
        assert(s.drop_last().take(i) =~= s.take(i));
    }
}

fn digit_of(c: char) -> (d: i32)
    requires
        is_digit(c),
    ensures
        d == c as int - '0' as int,
        0 <= d <= 9,
{
    let n: u32 = c as u32;
    (n - 48) as i32
}

/// Reads a depth limit: the value of `s` where `s` is made of one or more
/// decimal digits and the value fits, and an error that names `s` otherwise.
pub fn to_int(s: &str) -> (r: Result<i32, ConfigError>)
    ensures
        match r {
            Ok(v) => s@.len() > 0 && all_digits(s@) && v == decimal_value(s@),
            Err(e) => (s@.len() == 0 || !all_digits(s@) || decimal_value(s@) > i32::MAX) && e
                is NotANumber && e.token() == s@,
        },
{
    let cs = chars_of(s);
    if cs.len() == 0 {
        return Err(ConfigError::NotANumber(String::from_str(s)));
    }
    let mut r: i32 = 0;
    let mut i: usize = 0;
    while i < cs.len()
        invariant
            i <= cs.len(),
            cs@ == s@,
            all_digits(cs@.take(i as int)),
            r == decimal_value(cs@.take(i as int)),
        decreases cs.len() - i,
    {
        let c = cs[i];
        if c < '0' || c > '9' {
            return Err(ConfigError::NotANumber(String::from_str(s)));
        }
        let d = digit_of(c);
        assert(cs@.take(i + 1).drop_last() =~= cs@.take(i as int));
        if r > (i32::MAX - d) / 10 {
            proof {
                if all_digits(s@) {
                    lemma_decimal_prefix(s@, i + 1);
                }
            }
            return Err(ConfigError::NotANumber(String::from_str(s)));
        }
        r = 10 * r + d;
        i += 1;
    }
    assert(cs@.take(i as int) =~= cs@);
    Ok(r)
}

/// Which names of files a run shows.
#[derive(Clone, Debug, PartialEq, Eq)]
pub struct NameFilter {
    /// Where set, only this very name is shown.
    pub exact: Option<String>,
    /// Where set, and no exact name is, a name must begin with it.
    pub prefix: Option<String>,
    /// Where set, and no exact name is, a name must end with it.
    pub suffix: Option<String>,
}

/// A name filter as characters.
pub struct NameFilterView {
    pub exact: Option<Seq<char>>,
    pub prefix: Option<Seq<char>>,
    pub suffix: Option<Seq<char>>,
}

/// The characters of an optional text.
pub open spec fn text_of(s: Option<String>) -> Option<Seq<char>> {
    match s {
        Some(t) => Some(t@),
        None => None,
    }
}

impl View for NameFilter {
    type V = NameFilterView;

    open spec fn view(&self) -> NameFilterView {
        NameFilterView {
            exact: text_of(self.exact),
            prefix: text_of(self.prefix),
            suffix: text_of(self.suffix),
        }
    }
}

impl Default for NameFilter {
    /// The filter that lets every name pass.
    fn default() -> (filter: NameFilter)
        ensures
            filter@ == (NameFilterView { exact: None, prefix: None, suffix: None }),
    {
        NameFilter { exact: None, prefix: None, suffix: None }
    }
}

impl NameFilterView {
    /// An exact name excludes a prefix and a suffix.
    pub open spec fn wf(self) -> bool {
        self.exact is Some ==> self.prefix is None && self.suffix is None
    }

    /// Whether a file of this name is shown: with an exact name, on that name
    /// alone; otherwise where the name begins with the prefix, if one is set,
    /// and ends with the suffix, if one is set.
    pub open spec fn matches(self, name: Seq<char>) -> bool {
        match self.exact {
            Some(exact) => name == exact,
            None => {
                &&& self.prefix matches Some(prefix) ==> prefix.is_prefix_of(name)
                &&& self.suffix matches Some(suffix) ==> suffix.is_suffix_of(name)
            },
        }
    }
}

/// Whether `pattern` holds `*` more than once.
pub open spec fn is_malformed(pattern: Seq<char>) -> bool {
    exists|i: int, j: int|
        0 <= i < j < pattern.len() && #[trigger] pattern[i] == '*' && #[trigger] pattern[j] == '*'
}

/// A text, or nothing where the text is empty.
pub open spec fn non_empty(s: Seq<char>) -> Option<Seq<char>> {
    if s.len() == 0 {
        None
    } else {
        Some(s)
    }
}

/// The filter that a pattern with at most one `*` writes: without `*` the
/// pattern is the exact name; otherwise what stands before the `*` is the
/// prefix and what stands after it the suffix. An empty part sets nothing.
pub open spec fn filter_of(pattern: Seq<char>) -> NameFilterView {
    if pattern.contains('*') {
        let star = pattern.index_of('*');
        NameFilterView {
            exact: None,
            prefix: non_empty(pattern.take(star)),
            suffix: non_empty(pattern.skip(star + 1)),
        }
    } else {
        NameFilterView { exact: non_empty(pattern), prefix: None, suffix: None }
    }
}

fn owned_part(pattern: &str, from: usize, to: usize) -> (r: Option<String>)
    requires
        from <= to <= pattern@.len(),
    ensures
        text_of(r) == non_empty(pattern@.subrange(from as int, to as int)),
{
    if from == to {
        None
    } else {
        Some(String::from_str(pattern.substring_char(from, to)))
    }
}

/// Reads a name filter: `name`, `prefix*`, `*suffix` or `prefix*suffix`. A
/// pattern with more than one `*` is an error that names the pattern.
pub fn parse_filter(pattern: &str) -> (r: Result<NameFilter, ConfigError>)
    ensures
        match r {
            Ok(filter) => !is_malformed(pattern@) && filter@ == filter_of(pattern@) && filter@.wf(),
            Err(e) => is_malformed(pattern@) && e is MalformedFilter && e.token() == pattern@,
        },
{
    let cs = chars_of(pattern);
    let mut star: Option<usize> = None;
    let mut i: usize = 0;
    while i < cs.len()
        invariant
            i <= cs.len(),
            cs@ == pattern@,
            match star {
                Some(at) => at < i && cs@[at as int] == '*' && forall|j: int|
                    0 <= j < i && cs@[j] == '*' ==> j == at,
                None => forall|j: int| 0 <= j < i ==> cs@[j] != '*',
            },
        decreases cs.len() - i,
    {
        if cs[i] == '*' {
            match star {
                Some(at) => {
                    return Err(ConfigError::MalformedFilter(String::from_str(pattern)));
                },
                None => {
                    star = Some(i);
                },
            }
        }
        i += 1;
    }
    match star {
        Some(at) => {
            Ok(
                NameFilter {
                    exact: None,
                    prefix: owned_part(pattern, 0, at),
                    suffix: owned_part(pattern, at + 1, cs.len()),
                },
            )
        },
        None => {
            assert(pattern@ =~= pattern@.subrange(0, pattern@.len() as int));
            Ok(NameFilter { exact: owned_part(pattern, 0, cs.len()), prefix: None, suffix: None })
        },
    }
}

/// What a path given on the command line is relative to.
#[derive(Clone, Copy, Debug, PartialEq, Eq, Structural)]
pub enum PathBase {
    /// The path begins with `~`: the home directory.
    Home,
    /// The path begins with `.`: the current directory.
    Current,
    /// The path is taken as it is.
    Literal,
}

/// The base that the first character of a path asks for.
pub open spec fn base_of(path: Seq<char>) -> PathBase {
    if path.len() > 0 && path[0] == '~' {
        PathBase::Home
    } else if path.len() > 0 && path[0] == '.' {
        PathBase::Current
    } else {
        PathBase::Literal
    }
}

/// The path with its first character replaced by the base it asks for.
pub open spec fn expanded(path: Seq<char>, base: Seq<char>) -> Seq<char> {
    if base_of(path) == PathBase::Literal {
        path
    } else {
        base + path.skip(1)
    }
}

/// Tells which directory a path needs to be expanded with.
pub fn path_base(path: &str) -> (b: PathBase)
    ensures
        b == base_of(path@),
{
    let cs = chars_of(path);
    if cs.len() > 0 && cs[0] == '~' {
        PathBase::Home
    } else if cs.len() > 0 && cs[0] == '.' {
        PathBase::Current
    } else {
        PathBase::Literal
    }
}

/// Expands a leading `~` or `.` of `path` to `base`: the home directory for
/// `~`, the current directory for `.`. Any other path comes back unchanged.
pub fn expand_path(path: &str, base: &str) -> (r: String)
    ensures
        r@ == expanded(path@, base@),
{
    match path_base(path) {
        PathBase::Literal => String::from_str(path),
        _ => {
            let n = path.unicode_len();
            let mut r = String::from_str(base);
            r.append(path.substring_char(1, n));
            r
        },
    }
}

/// The options of one run. They do not change while it lasts.
#[derive(Clone, Debug, PartialEq, Eq)]
pub struct TraversalConfig {
    /// Whether directories whose name begins with `.` are shown.
    pub include_hidden: bool,
    /// Whether only directories are shown.
    pub directories_only: bool,
    /// The depth whose directories are shown but not opened, or `NO_LIMIT`.
    pub max_depth: i32,
    /// The order of siblings.
    pub comparator: Comparator,
    /// Which files are shown.
    pub name_filter: NameFilter,
}

impl Default for TraversalConfig {
    /// The options of a run that was given none: hidden directories are left
    /// out, files are shown whatever their name, there is no depth limit, and
    /// siblings stay in the order of the listing.
    fn default() -> (config: TraversalConfig)
        ensures
            !config.include_hidden,
            !config.directories_only,
            config.max_depth == NO_LIMIT,
            config.comparator == (Comparator {
                mode: SortMode::Unsorted,
                reversed: false,
                directories_first: false,
            }),
            config.name_filter@ == (NameFilterView { exact: None, prefix: None, suffix: None }),
    {
        TraversalConfig {
            include_hidden: false,
            directories_only: false,
            max_depth: NO_LIMIT,
            comparator: Comparator {
                mode: SortMode::Unsorted,
                reversed: false,
                directories_first: false,
            },
            name_filter: NameFilter { exact: None, prefix: None, suffix: None },
        }
    }
}

/// Whether a name begins with `.`.
pub open spec fn is_hidden(name: Seq<char>) -> bool {
    name.len() > 0 && name[0] == '.'
}

impl TraversalConfig {
    /// Whether an entry of a listing is shown. A directory is, unless it is
    /// hidden and hidden ones are left out; the name filter does not apply to
    /// it. Anything else is shown where not only directories are asked for and
    /// the name filter lets its name pass.
    pub open spec fn keeps(self, entry: Entry) -> bool {
        if entry.is_directory {
            self.include_hidden || !is_hidden(entry.name@)
        } else {
            !self.directories_only && self.name_filter@.matches(entry.name@)
        }
    }

    /// Whether an entry of a listing is shown.
    pub fn path_filter(&self, entry: &Entry) -> (keep: bool)
        ensures
            keep == self.keeps(*entry),
    {
        let name = chars_of(entry.name.as_str());
        if !entry.is_directory {
            if self.directories_only {
                return false;
            }
            match &self.name_filter.exact {
                Some(exact) => {
                    let wanted = chars_of(exact.as_str());
                    return same_chars(&name, &wanted);
                },
                None => {},
            }
            let mut keep = true;
            match &self.name_filter.prefix {
                Some(prefix) => {
                    let wanted = chars_of(prefix.as_str());
                    keep = has_prefix(&name, &wanted);
                },
                None => {},
            }
            match &self.name_filter.suffix {
                Some(suffix) => {
                    let wanted = [suffix.as_str()];
                    keep = keep && ends_with(entry.name.as_str(), &wanted);
                },
                None => {},
            }
            return keep;
        }
        self.include_hidden || !(name.len() > 0 && name[0] == '.')
    }

    /// Whether a directory at this depth is shown without being opened.
    pub open spec fn limit_reached(self, depth: int) -> bool {
        self.max_depth != NO_LIMIT && depth >= self.max_depth
    }

    /// Whether an entry at `depth` is opened: it is a directory above the
    /// depth limit, and above the deepest level that can be shown.
    pub open spec fn opens(self, entry: Entry, depth: int) -> bool {
        entry.is_directory && !self.limit_reached(depth) && depth < MAX_DEPTH
    }

    /// Whether an entry at `depth` is opened.
    pub fn should_open(&self, entry: &Entry, depth: usize) -> (open: bool)
        ensures
            open == self.opens(*entry, depth as int),
    {
        entry.is_directory && !(self.max_depth != NO_LIMIT && (self.max_depth < 0 || depth
            >= self.max_depth as usize)) && depth < MAX_DEPTH
    }
}

} // verus!
