use dirtree::entry::{classify, extension, is_executable, is_listed, Category, Entry};
use dirtree::order::{
    directory_comparator, get_comparator, last_modified_comparator, name_comparator, reverse,
    Comparator, Order, SortMode,
};
use dirtree::error::ConfigError;
use dirtree::text::{chars_of, ends_with, equals, has_prefix, has_suffix, same_chars};

fn file(name: &str) -> Entry {
    Entry { name: String::from(name), is_directory: false, is_executable: false, modified: 0 }
}

fn dir(name: &str) -> Entry {
    Entry { name: String::from(name), is_directory: true, is_executable: true, modified: 0 }
}

fn stamped(name: &str, modified: i128) -> Entry {
    Entry { name: String::from(name), is_directory: false, is_executable: false, modified }
}

#[test]
fn chars_of_keeps_every_character() {
    assert_eq!(chars_of("añ→z"), vec!['a', 'ñ', '→', 'z']);
    assert_eq!(chars_of(""), Vec::<char>::new());
}

#[test]
fn ends_with_finds_a_listed_suffix() {
    assert!(ends_with("photo.png", &["svg", "png"]));
    assert!(ends_with("photo.svg", &["svg", "png"]));
    assert!(!ends_with("photo.gif", &["svg", "png"]));
    assert!(!ends_with("photo.png", &[]));
    assert!(!ends_with("ng", &["png"]));
}

#[test]
fn ends_with_compares_letter_for_letter() {
    assert!(!ends_with("photo.PNG", &["svg", "png"]));
    assert!(ends_with("mysvg", &["svg"]));
}

#[test]
fn ends_with_takes_whole_endings_only() {
    assert!(ends_with("main.rs", &[".rs"]));
    assert!(ends_with("main.rs", &[""]));
    assert!(ends_with(".rs", &[".rs"]));
    assert!(!ends_with("rs", &[".rs"]));
    assert!(!ends_with("main.rs.bak", &[".rs"]));
    assert!(!ends_with("", &[".rs"]));
    assert!(ends_with("naïve→", &["ve→"]));
}

#[test]
fn prefixes_and_suffixes_of_character_rows() {
    let name = chars_of("logfile");
    assert!(has_prefix(&name, &chars_of("log")));
    assert!(has_prefix(&name, &chars_of("logfile")));
    assert!(has_prefix(&name, &chars_of("")));
    assert!(!has_prefix(&name, &chars_of("logfiles")));
    assert!(!has_prefix(&name, &chars_of("og")));
    assert!(has_suffix(&name, &chars_of("file")));
    assert!(has_suffix(&name, &chars_of("")));
    assert!(!has_suffix(&name, &chars_of("fil")));
    assert!(!has_suffix(&name, &chars_of("alogfile")));
    assert!(same_chars(&name, &chars_of("logfile")));
    assert!(!same_chars(&name, &chars_of("logfilE")));
    assert!(!same_chars(&name, &chars_of("logfil")));
}

#[test]
fn equals_compares_whole_texts() {
    assert!(equals("name", "name"));
    assert!(equals("", ""));
    assert!(!equals("name", "names"));
    assert!(!equals("name", "Name"));
}

#[test]
fn is_executable_reads_the_three_execute_bits() {
    assert!(is_executable(0o755));
    assert!(is_executable(0o100));
    assert!(is_executable(0o010));
    assert!(is_executable(0o001));
    assert!(is_executable(0o100644 | 0o001));
    assert!(!is_executable(0o644));
    assert!(!is_executable(0o100666));
    assert!(!is_executable(0));
}

#[test]
fn classify_goes_by_kind_then_name_then_mode() {
    assert_eq!(classify("src", true, true), Category::Directory);
    assert_eq!(classify("pictures.png", true, false), Category::Directory);
    assert_eq!(classify("a.svg", false, false), Category::Image);
    assert_eq!(classify("a.png", false, true), Category::Image);
    assert_eq!(classify("a.jpg", false, false), Category::Image);
    assert_eq!(classify("a.jpeg", false, false), Category::Image);
    assert_eq!(classify("a.mp4", false, false), Category::Video);
    assert_eq!(classify("a.mkv", false, false), Category::Video);
    assert_eq!(classify("a.flv", false, true), Category::Video);
    assert_eq!(classify("a.json", false, false), Category::Data);
    assert_eq!(classify("a.xml", false, true), Category::Data);
    assert_eq!(classify("a.gz", false, false), Category::Archive);
    assert_eq!(classify("a.zip", false, false), Category::Archive);
    assert_eq!(classify("a.rar", false, false), Category::Archive);
    assert_eq!(classify("a.tar", false, false), Category::Archive);
    assert_eq!(classify("a.7z", false, true), Category::Archive);
    assert_eq!(classify("run.sh", false, true), Category::Executable);
    assert_eq!(classify("notes.txt", false, false), Category::Other);
    assert_eq!(classify("", false, false), Category::Other);
}

#[test]
fn classify_does_not_fold_case() {
    assert_eq!(classify("a.PNG", false, false), Category::Other);
    assert_eq!(classify("photo.PNG", false, true), Category::Executable);
    assert_eq!(classify("a.Json", false, false), Category::Other);
    assert_eq!(classify("a.png", false, false), Category::Image);
}

#[test]
fn classify_goes_by_the_text_after_the_last_dot() {
    assert_eq!(classify("x.tar.gz", false, false), Category::Archive);
    assert_eq!(classify("x.png.json", false, false), Category::Data);
    assert_eq!(classify("x.json.png", false, false), Category::Image);
    assert_eq!(classify("x.png.txt", false, false), Category::Other);
    assert_eq!(classify("x.png.", false, false), Category::Other);
}

#[test]
fn classify_takes_no_bare_ending_for_an_extension() {
    assert_eq!(classify("mypng", false, false), Category::Other);
    assert_eq!(classify("mypng", false, true), Category::Executable);
    assert_eq!(classify("a.xpng", false, false), Category::Other);
    assert_eq!(classify("a.jjpeg", false, false), Category::Other);
    assert_eq!(classify("tar", false, false), Category::Other);
    assert_eq!(classify("a.targz", false, false), Category::Other);
    assert_eq!(classify("a.pn", false, false), Category::Other);
}

#[test]
fn classify_of_names_that_begin_or_end_with_a_dot() {
    assert_eq!(classify(".png", false, false), Category::Image);
    assert_eq!(classify(".", false, false), Category::Other);
    assert_eq!(classify("a.", false, true), Category::Executable);
    assert_eq!(classify("..zip", false, false), Category::Archive);
}

#[test]
fn extension_is_the_text_after_the_last_dot() {
    assert_eq!(extension("photo.png"), Some(vec!['p', 'n', 'g']));
    assert_eq!(extension("x.tar.gz"), Some(vec!['g', 'z']));
    assert_eq!(extension("a."), Some(vec![]));
    assert_eq!(extension(".env"), Some(vec!['e', 'n', 'v']));
    assert_eq!(extension("naïve.é→"), Some(vec!['é', '→']));
    assert_eq!(extension("Makefile"), None);
    assert_eq!(extension(""), None);
}

#[test]
fn is_listed_compares_whole_extensions() {
    let png = vec!['p', 'n', 'g'];
    assert!(is_listed(&png, &["svg", "png"]));
    assert!(!is_listed(&png, &["svg", "xpng", "pn", "PNG"]));
    assert!(!is_listed(&png, &[]));
    assert!(is_listed(&vec![], &["", "a"]));
    assert!(!is_listed(&vec![], &["a"]));
}

#[test]
fn name_comparator_orders_by_code_point() {
    assert_eq!(name_comparator(&file("a"), &file("b")), Order::Less);
    assert_eq!(name_comparator(&file("b"), &file("a")), Order::Greater);
    assert_eq!(name_comparator(&file("abc"), &file("abc")), Order::Equal);
    assert_eq!(name_comparator(&file("ab"), &file("abc")), Order::Less);
    assert_eq!(name_comparator(&file("abc"), &file("ab")), Order::Greater);
    assert_eq!(name_comparator(&file(""), &file("")), Order::Equal);
    assert_eq!(name_comparator(&file(""), &file("a")), Order::Less);
    assert_eq!(name_comparator(&file("B"), &file("a")), Order::Less);
    assert_eq!(name_comparator(&file("a10"), &file("a9")), Order::Less);
    assert_eq!(name_comparator(&file("z"), &file("é")), Order::Less);
    assert_eq!(name_comparator(&file("é"), &file("→")), Order::Less);
}

#[test]
fn name_comparator_agrees_with_the_order_of_strings() {
    let names = ["", "a", "A", "ab", "b", "é", "zz", "→", "😀", "a.b", "a-b", "a_b"];
    for x in names.iter() {
        for y in names.iter() {
            let expected = match x.cmp(y) {
                std::cmp::Ordering::Less => Order::Less,
                std::cmp::Ordering::Equal => Order::Equal,
                std::cmp::Ordering::Greater => Order::Greater,
            };
            assert_eq!(name_comparator(&file(x), &file(y)), expected);
        }
    }
}

#[test]
fn directory_comparator_puts_directories_first() {
    assert_eq!(directory_comparator(&dir("z"), &file("a")), Order::Less);
    assert_eq!(directory_comparator(&file("a"), &dir("z")), Order::Greater);
    assert_eq!(directory_comparator(&dir("a"), &dir("z")), Order::Equal);
    assert_eq!(directory_comparator(&file("a"), &file("z")), Order::Equal);
}

#[test]
fn last_modified_comparator_puts_the_latest_first() {
    assert_eq!(last_modified_comparator(&stamped("a", 200), &stamped("b", 100)), Order::Less);
    assert_eq!(last_modified_comparator(&stamped("a", 100), &stamped("b", 200)), Order::Greater);
    assert_eq!(last_modified_comparator(&stamped("a", 100), &stamped("b", 100)), Order::Equal);
    assert_eq!(last_modified_comparator(&stamped("a", -5), &stamped("b", -6)), Order::Less);
}

#[test]
fn reverse_turns_an_order_round() {
    assert_eq!(reverse(Order::Less), Order::Greater);
    assert_eq!(reverse(Order::Equal), Order::Equal);
    assert_eq!(reverse(Order::Greater), Order::Less);
}

#[test]
fn get_comparator_knows_three_names() {
    assert_eq!(
        get_comparator("none", false, false),
        Ok(Comparator { mode: SortMode::Unsorted, reversed: false, directories_first: false })
    );
    assert_eq!(
        get_comparator("name", true, false),
        Ok(Comparator { mode: SortMode::Name, reversed: true, directories_first: false })
    );
    assert_eq!(
        get_comparator("modified", false, true),
        Ok(Comparator { mode: SortMode::Modified, reversed: false, directories_first: true })
    );
}

#[test]
fn get_comparator_refuses_any_other_name() {
    assert_eq!(
        get_comparator("size", false, false),
        Err(ConfigError::UnknownSortMode(String::from("size")))
    );
    assert_eq!(
        get_comparator("Name", false, false),
        Err(ConfigError::UnknownSortMode(String::from("Name")))
    );
    assert_eq!(get_comparator("", true, true), Err(ConfigError::UnknownSortMode(String::new())));
}

#[test]
fn compare_without_a_key_holds_everything_equal() {
    let c = Comparator { mode: SortMode::Unsorted, reversed: false, directories_first: false };
    assert_eq!(c.compare(&dir("z"), &file("a")), Order::Equal);
    assert_eq!(c.compare(&file("a"), &file("b")), Order::Equal);
    let r = Comparator { mode: SortMode::Unsorted, reversed: true, directories_first: false };
    assert_eq!(r.compare(&file("a"), &file("b")), Order::Equal);
}

#[test]
fn compare_by_name_and_reversed() {
    let c = Comparator { mode: SortMode::Name, reversed: false, directories_first: false };
    assert_eq!(c.compare(&file("a"), &dir("b")), Order::Less);
    assert_eq!(c.compare(&dir("b"), &file("a")), Order::Greater);
    let r = Comparator { mode: SortMode::Name, reversed: true, directories_first: false };
    assert_eq!(r.compare(&file("a"), &dir("b")), Order::Greater);
    assert_eq!(r.compare(&dir("b"), &file("a")), Order::Less);
    assert_eq!(r.compare(&file("a"), &file("a")), Order::Equal);
}

#[test]
fn compare_with_directories_first_is_not_reversed_across_kinds() {
    let c = Comparator { mode: SortMode::Name, reversed: true, directories_first: true };
    assert_eq!(c.compare(&dir("a"), &file("z")), Order::Less);
    assert_eq!(c.compare(&file("z"), &dir("a")), Order::Greater);
    assert_eq!(c.compare(&dir("a"), &dir("z")), Order::Greater);
    assert_eq!(c.compare(&file("a"), &file("z")), Order::Greater);
    let plain = Comparator { mode: SortMode::Unsorted, reversed: false, directories_first: true };
    assert_eq!(plain.compare(&dir("z"), &file("a")), Order::Less);
    assert_eq!(plain.compare(&dir("z"), &dir("a")), Order::Equal);
}

#[test]
fn compare_by_modification_time() {
    let c = Comparator { mode: SortMode::Modified, reversed: false, directories_first: false };
    assert_eq!(c.compare(&stamped("old", 1), &stamped("new", 2)), Order::Greater);
    let r = Comparator { mode: SortMode::Modified, reversed: true, directories_first: false };
    assert_eq!(r.compare(&stamped("old", 1), &stamped("new", 2)), Order::Less);
}

#[test]
fn compare_is_a_strict_weak_ordering_on_a_sample() {
    let sample = vec![
        dir("b"),
        file("b"),
        stamped("a", 5),
        stamped("c", 5),
        dir(".git"),
        stamped("a", 9),
        file(""),
    ];
    for mode in [SortMode::Unsorted, SortMode::Name, SortMode::Modified] {
        for reversed in [false, true] {
            for directories_first in [false, true] {
                let c = Comparator { mode, reversed, directories_first };
                for x in sample.iter() {
                    assert_eq!(c.compare(x, x), Order::Equal);
                    for y in sample.iter() {
                        assert_eq!(c.compare(y, x), reverse(c.compare(x, y)));
                        for z in sample.iter() {
                            let xy = c.compare(x, y);
                            let yz = c.compare(y, z);
                            if xy != Order::Greater && yz != Order::Greater {
                                let xz = c.compare(x, z);
                                assert_ne!(xz, Order::Greater);
                                if xy == Order::Less || yz == Order::Less {
                                    assert_eq!(xz, Order::Less);
                                }
                            }
                        }
                    }
                }
            }
        }
    }
}
