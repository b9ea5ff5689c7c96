//! Entries of a directory and the categories they are shown in.
//!
//! A file is an image, a video, a data file or an archive by its extension,
//! the text after the last `.` of its name.

use vstd::prelude::*;
use crate::text::chars_of;
use crate::text::same_chars;

verus! {

/// Extensions of image files.
pub const IMG_EXTENSIONS: [&'static str; 4] = ["svg", "png", "jpg", "jpeg"];

/// Extensions of video files.
pub const VID_EXTENSIONS: [&'static str; 3] = ["mp4", "mkv", "flv"];

/// Extensions of data files.
pub const DATA_EXTENSIONS: [&'static str; 2] = ["json", "xml"];

/// Extensions of archives.
pub const ARCHIVE_EXTENSIONS: [&'static str; 5] = ["gz", "zip", "rar", "tar", "7z"];

/// The permission bits that let the owner, the group or anyone else run a file.
pub const EXECUTE_BITS: u32 = 0o111;

/// What an entry is shown as.
#[derive(Clone, Copy, Debug, PartialEq, Eq, Structural)]
pub enum Category {
    Directory,
    Image,
    Video,
    Data,
    Archive,
    Executable,
    Other,
}

/// One file or directory found in a listing.
#[derive(Clone, Debug, PartialEq, Eq)]
pub struct Entry {
    /// The last component of the path.
    pub name: String,
    pub is_directory: bool,
    /// Whether some execute bit is set in the mode.
    pub is_executable: bool,
    /// Nanoseconds from the Unix epoch to the last modification.
    pub modified: i128,
}

/// Whether a POSIX mode has an execute bit set for the owner, the group or others.
pub fn is_executable(mode: u32) -> (r: bool)
    ensures
        r == (mode & EXECUTE_BITS != 0),
{
    mode & EXECUTE_BITS != 0
}

/// Whether the `.` at `at` is the last one in `name`.
pub open spec fn is_last_dot(name: Seq<char>, at: int) -> bool {
    &&& 0 <= at < name.len()
    &&& name[at] == '.'
    &&& forall|j: int| at < j < name.len() ==> name[j] != '.'
}

/// The extension of a name: the text after its last `.`. A name without a `.`
/// has none.
pub open spec fn extension_of(name: Seq<char>) -> Option<Seq<char>> {
    if name.contains('.') {
        Some(name.skip((choose|at: int| is_last_dot(name, at)) + 1))
    } else {
        None
    }
}

/// Whether `extension` is one of `list`, letter for letter.
pub open spec fn listed(extension: Seq<char>, list: Seq<&str>) -> bool {
    exists|k: int| 0 <= k < list.len() && (#[trigger] list[k])@ == extension
}

/// Whether a name has an extension, and that extension is one of `list`.
pub open spec fn extension_in(name: Seq<char>, list: Seq<&str>) -> bool {
    extension_of(name) matches Some(extension) && listed(extension, list)
}

/// The category of an entry: directories first, then the four lists of
/// extensions in turn, compared letter for letter with no folding of case,
/// then the execute bits.
pub open spec fn category_of(name: Seq<char>, is_directory: bool, is_executable: bool) -> Category {
    if is_directory {
        Category::Directory
    } else if extension_in(name, IMG_EXTENSIONS@) {
        Category::Image
    } else if extension_in(name, VID_EXTENSIONS@) {
        Category::Video
    } else if extension_in(name, DATA_EXTENSIONS@) {
        Category::Data
    } else if extension_in(name, ARCHIVE_EXTENSIONS@) {
        Category::Archive
    } else if is_executable {
        Category::Executable
    } else {
        Category::Other
    }
}

/// The extension of a name, if it has one.
pub fn extension(name: &str) -> (found: Option<Vec<char>>)
    ensures
        match found {
            Some(extension) => extension_of(name@) == Some(extension@),
            None => extension_of(name@) is None,
        },
{
    let cs = chars_of(name);
    let mut at: usize = cs.len();
    while at > 0 && cs[at - 1] != '.'
        invariant
            at <= cs.len(),
            forall|j: int| at <= j < cs.len() ==> cs@[j] != '.',
        decreases at,
    {
        at -= 1;
    }
    if at == 0 {
        return None;
    }
    assert(is_last_dot(cs@, at - 1));
    let mut found: Vec<char> = Vec::new();
    let mut i: usize = at;
    while i < cs.len()
        invariant
            at <= i <= cs.len(),
            found@ == cs@.subrange(at as int, i as int),
        decreases cs.len() - i,
    {
        found.push(cs[i]);
        i += 1;
    }
    Some(found)
}

/// Whether `extension` is one of `list`.
pub fn is_listed(extension: &Vec<char>, list: &[&str]) -> (found: bool)
    ensures
        found == listed(extension@, list@),
{
    let mut k: usize = 0;
    while k < list.len()
        invariant
            k <= list.len(),
            forall|j: int| 0 <= j < k ==> (#[trigger] list@[j])@ != extension@,
        decreases list.len() - k,
    {
        let candidate = chars_of(list[k]);
        if same_chars(&candidate, extension) {
            return true;
        }
        k += 1;
    }
    false
}

/// The category of an entry with the given name and attributes.
pub fn classify(name: &str, is_directory: bool, is_executable: bool) -> (c: Category)
    ensures
        c == category_of(name@, is_directory, is_executable),
{
    if is_directory {
        return Category::Directory;
    }
    match extension(name) {
        Some(found) => {
            if is_listed(&found, &IMG_EXTENSIONS) {
                return Category::Image;
            } else if is_listed(&found, &VID_EXTENSIONS) {
                return Category::Video;
            } else if is_listed(&found, &DATA_EXTENSIONS) {
                return Category::Data;
            } else if is_listed(&found, &ARCHIVE_EXTENSIONS) {
                return Category::Archive;
            }
        },
        None => {},
    }
    if is_executable {
        Category::Executable
    } else {
        Category::Other
    }
}

impl Entry {
    /// The category this entry is shown in.
    pub open spec fn category(self) -> Category {
        category_of(self.name@, self.is_directory, self.is_executable)
    }

    /// A copy of this entry.
    pub fn duplicate(&self) -> (e: Entry)
        ensures
            e == *self,
    {
        Entry {
            name: self.name.clone(),
            is_directory: self.is_directory,
            is_executable: self.is_executable,
            modified: self.modified,
        }
    }
}

} // verus!
