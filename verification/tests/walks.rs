use dirtree::branch::BranchState;
use dirtree::config::{parse_filter, NameFilter, TraversalConfig, NO_LIMIT};
use dirtree::entry::{Category, Entry};
use dirtree::order::{Comparator, SortMode};
use dirtree::render::{assemble_line, render_line, RenderEvent};
use dirtree::tree::{entries_in, Node};
use dirtree::visitor::{DirectoryVisitor, WalkAction, WalkEvent};

fn file(name: &str) -> Node {
    Node {
        entry: Entry {
            name: String::from(name),
            is_directory: false,
            is_executable: false,
            modified: 0,
        },
        children: None,
    }
}

fn dir(name: &str, children: Vec<Node>) -> Node {
    Node {
        entry: Entry {
            name: String::from(name),
            is_directory: true,
            is_executable: true,
            modified: 0,
        },
        children: Some(children),
    }
}

fn unreadable(name: &str) -> Node {
    Node {
        entry: Entry {
            name: String::from(name),
            is_directory: true,
            is_executable: false,
            modified: 0,
        },
        children: None,
    }
}

fn defaults() -> TraversalConfig {
    TraversalConfig {
        include_hidden: false,
        directories_only: false,
        max_depth: NO_LIMIT,
        comparator: Comparator {
            mode: SortMode::Unsorted,
            reversed: false,
            directories_first: false,
        },
        name_filter: NameFilter { exact: None, prefix: None, suffix: None },
    }
}

fn by_name() -> TraversalConfig {
    let mut config = defaults();
    config.comparator.mode = SortMode::Name;
    config
}

/// The lines of a walk with the labels left unpainted.
fn outline(events: &Vec<RenderEvent>) -> Vec<String> {
    events.iter().map(|e| assemble_line(&e.guide_columns, e.depth, &e.label)).collect()
}

fn labels(events: &Vec<RenderEvent>) -> Vec<String> {
    events.iter().map(|e| e.label.clone()).collect()
}

fn find<'a>(root: &'a Node, path: &[String]) -> &'a Node {
    let mut node = root;
    for name in path {
        node = node
            .children
            .as_ref()
            .unwrap()
            .iter()
            .find(|child| &child.entry.name == name)
            .unwrap();
    }
    node
}

/// Runs the visitor over a tree, answering each request from the tree.
fn run(config: &TraversalConfig, root: &Node) -> Vec<RenderEvent> {
    let mut visitor = DirectoryVisitor::new(config.clone());
    let mut shown = Vec::new();
    let mut action = visitor.step(WalkEvent::Root(root.entry.clone()));
    loop {
        match action {
            WalkAction::Done => break,
            WalkAction::Show { event, open } => {
                shown.push(event);
                assert_eq!(open, visitor.awaiting());
                let next = if open {
                    match &find(root, &visitor.path()).children {
                        Some(children) => WalkEvent::Listed(entries_in(children)),
                        None => WalkEvent::Unreadable,
                    }
                } else {
                    WalkEvent::Continue
                };
                action = visitor.step(next);
            },
        }
    }
    shown
}

fn small_tree() -> Node {
    dir("root", vec![dir("a", vec![file("x"), file("y")]), file("b")])
}

fn deep_tree() -> Node {
    dir(
        "root",
        vec![
            file("b"),
            dir("a", vec![dir("y", vec![file("q")]), dir("x", vec![file("p")])]),
        ],
    )
}

fn project() -> Node {
    dir(
        "project",
        vec![
            file("zeta.txt"),
            dir(
                "src",
                vec![
                    file("main.rs"),
                    dir("walk", vec![file("mod.rs"), dir("deep", vec![file("leaf.rs")])]),
                    file("lib.rs"),
                ],
            ),
            dir(".git", vec![file("HEAD"), dir("objects", vec![])]),
            file("alpha.txt"),
            dir("docs", vec![]),
            unreadable("locked"),
            file(".env"),
            dir("target", vec![dir("debug", vec![file("build.log")])]),
        ],
    )
}

#[test]
fn walk_of_a_single_file_shows_the_file() {
    let events = defaults().walk(&file("notes.txt"));
    assert_eq!(
        events,
        vec![RenderEvent {
            depth: 0,
            guide_columns: vec![],
            label: String::from("notes.txt"),
            category: Category::Other,
        }]
    );
}

#[test]
fn walk_shows_each_entry_before_its_children() {
    let events = by_name().walk(&small_tree());
    assert_eq!(labels(&events), vec!["root", "a", "x", "y", "b"]);
    let depths: Vec<usize> = events.iter().map(|e| e.depth).collect();
    assert_eq!(depths, vec![0, 1, 2, 2, 1]);
}

#[test]
fn guide_bars_of_the_small_tree() {
    let events = by_name().walk(&small_tree());
    assert_eq!(
        outline(&events),
        vec!["root", "|__a", "|     |____x", "|     |____y", "|__b"]
    );
    // Below `a` the root still has `b` to come: column 0 carries a bar.
    assert_eq!(events[2].guide_columns, vec![true, false, false, false, false, false]);
    assert_eq!(events[3].guide_columns, vec![true, false, false, false, false, false]);
}

#[test]
fn guide_bar_of_a_directory_ends_with_its_last_entry() {
    let events = by_name().walk(&deep_tree());
    assert_eq!(
        outline(&events),
        vec![
            "root",
            "|__a",
            "|     |____x",
            "|     |       |______p",
            "|     |____y",
            "|             |______q",
            "|__b",
        ]
    );
    // `p` lies below `x`, after which `a` still has `y`: a bar in column 6.
    assert!(events[3].guide_columns[6]);
    // `q` lies below `y`, the last entry of `a`: no bar in column 6.
    assert!(!events[5].guide_columns[6]);
    assert!(events[5].guide_columns[0]);
}

#[test]
fn no_bar_runs_on_below_the_last_entry_of_the_root() {
    let tree = dir("root", vec![file("a"), dir("b", vec![file("x"), file("y")])]);
    let events = by_name().walk(&tree);
    assert_eq!(
        outline(&events),
        vec!["root", "|__a", "|__b", "      |____x", "      |____y"]
    );
}

#[test]
fn walk_renders_painted_lines() {
    let lines: Vec<String> = by_name().walk(&small_tree()).iter().map(render_line).collect();
    assert_eq!(
        lines,
        vec![
            "\x1b[1;34mroot\x1b[0m",
            "|__\x1b[1;34ma\x1b[0m",
            "|     |____x",
            "|     |____y",
            "|__b",
        ]
    );
}

#[test]
fn hidden_directories_are_left_out_by_default() {
    let tree = dir("root", vec![dir("dir1", vec![]), file("file.txt"), dir(".hidden", vec![])]);
    assert_eq!(labels(&defaults().walk(&tree)), vec!["root", "dir1", "file.txt"]);
}

#[test]
fn hidden_directories_are_shown_when_asked_for() {
    let tree = dir("root", vec![dir("dir1", vec![]), file("file.txt"), dir(".hidden", vec![])]);
    let mut all = defaults();
    all.include_hidden = true;
    assert_eq!(labels(&all.walk(&tree)), vec!["root", "dir1", "file.txt", ".hidden"]);
    all.comparator.directories_first = true;
    assert_eq!(labels(&all.walk(&tree)), vec!["root", "dir1", ".hidden", "file.txt"]);
    all.comparator.mode = SortMode::Name;
    assert_eq!(labels(&all.walk(&tree)), vec!["root", ".hidden", "dir1", "file.txt"]);
}

#[test]
fn hidden_files_are_shown_by_default() {
    let tree = dir("root", vec![file(".env"), dir(".git", vec![file("HEAD")])]);
    assert_eq!(labels(&defaults().walk(&tree)), vec!["root", ".env"]);
}

#[test]
fn the_root_is_shown_even_if_hidden_or_filtered() {
    let mut config = defaults();
    config.directories_only = true;
    assert_eq!(labels(&config.walk(&file("notes.txt"))), vec!["notes.txt"]);
    let hidden = dir(".config", vec![file("a")]);
    assert_eq!(labels(&defaults().walk(&hidden)), vec![".config", "a"]);
}

#[test]
fn a_name_filter_shows_matching_files_and_every_directory() {
    let tree = dir(
        "root",
        vec![
            file("log1.txt"),
            file("logfile"),
            file("readme.md"),
            dir("docs", vec![file("log2"), file("other")]),
        ],
    );
    let mut config = defaults();
    config.name_filter = parse_filter("log*").unwrap();
    assert_eq!(
        labels(&config.walk(&tree)),
        vec!["root", "log1.txt", "logfile", "docs", "log2"]
    );
    config.directories_only = true;
    assert_eq!(labels(&config.walk(&tree)), vec!["root", "docs"]);
}

#[test]
fn no_event_lies_deeper_than_the_depth_limit() {
    let tree = project();
    for limit in 0..5 {
        let mut config = by_name();
        config.include_hidden = true;
        config.max_depth = limit;
        let events = config.walk(&tree);
        assert!(events.iter().all(|e| e.depth <= limit as usize));
        assert!(events.iter().any(|e| e.depth == (limit as usize).min(3)));
    }
}

#[test]
fn directories_at_the_depth_limit_are_shown_and_not_opened() {
    let mut config = by_name();
    config.max_depth = 1;
    assert_eq!(
        labels(&config.walk(&project())),
        vec!["project", ".env", "alpha.txt", "docs", "locked", "src", "target", "zeta.txt"]
    );
    config.max_depth = 2;
    assert_eq!(
        labels(&config.walk(&project())),
        vec![
            "project",
            ".env",
            "alpha.txt",
            "docs",
            "locked",
            "src",
            "lib.rs",
            "main.rs",
            "walk",
            "target",
            "debug",
            "zeta.txt",
        ]
    );
    config.max_depth = 0;
    assert_eq!(labels(&config.walk(&project())), vec!["project"]);
}

#[test]
fn without_a_depth_limit_everything_is_opened() {
    let events = by_name().walk(&project());
    assert_eq!(
        outline(&events),
        vec![
            "project",
            "|__.env",
            "|__alpha.txt",
            "|__docs",
            "|__locked",
            "|__src",
            "|     |____lib.rs",
            "|     |____main.rs",
            "|     |____walk",
            "|             |______deep",
            "|             |         |________leaf.rs",
            "|             |______mod.rs",
            "|__target",
            "|     |____debug",
            "|             |______build.log",
            "|__zeta.txt",
        ]
    );
}

#[test]
fn an_opened_directory_shows_each_entry_that_is_kept_once() {
    let tree = project();
    let children = tree.children.as_ref().unwrap();
    let entries = entries_in(children);
    for flags in 0..16 {
        for pattern in ["", "*.txt", "a*", "zeta.txt", "*e*"] {
            let name_filter = match parse_filter(pattern) {
                Ok(filter) => filter,
                Err(_) => continue,
            };
            let config = TraversalConfig {
                include_hidden: flags & 1 != 0,
                directories_only: flags & 2 != 0,
                max_depth: NO_LIMIT,
                comparator: Comparator {
                    mode: SortMode::Name,
                    reversed: flags & 4 != 0,
                    directories_first: flags & 8 != 0,
                },
                name_filter,
            };
            let events = config.walk(&tree);
            let below: Vec<String> =
                events.iter().filter(|e| e.depth == 1).map(|e| e.label.clone()).collect();
            let excluded = entries.iter().filter(|e| !config.path_filter(e)).count();
            assert_eq!(below.len(), entries.len() - excluded);
            let expected: Vec<String> = config
                .children_order(&entries)
                .iter()
                .map(|&i| entries[i].name.clone())
                .collect();
            assert_eq!(below, expected);
        }
    }
}

#[test]
fn a_directory_that_cannot_be_read_is_shown_and_the_walk_goes_on() {
    let tree = dir("root", vec![unreadable("locked"), file("after"), dir("open", vec![file("z")])]);
    assert_eq!(labels(&defaults().walk(&tree)), vec!["root", "locked", "after", "open", "z"]);
    assert_eq!(labels(&run(&defaults(), &tree)), vec!["root", "locked", "after", "open", "z"]);
}

#[test]
fn visit_hands_the_branch_state_back_as_it_came() {
    let config = by_name();
    let mut state = BranchState::new();
    let mut out = Vec::new();
    config.visit(&small_tree(), &mut state, &mut out);
    assert_eq!(state.depth(), 0);
    assert_eq!(out.len(), 5);
    // A second root starts from a clean state and adds to the same output.
    config.visit(&deep_tree(), &mut state, &mut out);
    assert_eq!(state.depth(), 0);
    assert_eq!(out.len(), 12);
    assert_eq!(out[5].label, "root");
    assert_eq!(out[5].guide_columns, Vec::<bool>::new());
}

#[test]
fn visit_below_open_levels_draws_their_bars() {
    let config = by_name();
    let mut state = BranchState::new();
    state.enter();
    state.dispatch(true);
    let mut out = Vec::new();
    config.visit(&dir("a", vec![file("x")]), &mut state, &mut out);
    assert_eq!(outline(&out), vec!["|__a", "|     |____x"]);
    assert_eq!(state.depth(), 1);
}

#[test]
fn the_visitor_shows_what_a_walk_of_the_tree_shows() {
    let trees = vec![small_tree(), deep_tree(), project(), file("single"), dir("empty", vec![])];
    for tree in trees.iter() {
        for mode in [SortMode::Unsorted, SortMode::Name, SortMode::Modified] {
            for flags in 0..16 {
                for max_depth in [NO_LIMIT, 0, 1, 2, 7] {
                    let config = TraversalConfig {
                        include_hidden: flags & 1 != 0,
                        directories_only: flags & 2 != 0,
                        max_depth,
                        comparator: Comparator {
                            mode,
                            reversed: flags & 4 != 0,
                            directories_first: flags & 8 != 0,
                        },
                        name_filter: parse_filter("*.rs").unwrap(),
                    };
                    assert_eq!(run(&config, tree), config.walk(tree));
                }
            }
        }
    }
}

#[test]
fn the_visitor_asks_for_directories_above_the_limit_only() {
    let mut config = by_name();
    config.max_depth = 1;
    let mut visitor = DirectoryVisitor::new(config);
    match visitor.step(WalkEvent::Root(small_tree().entry.clone())) {
        WalkAction::Show { event, open } => {
            assert_eq!(event.label, "root");
            assert!(open);
        },
        WalkAction::Done => panic!("the root is always shown"),
    }
    assert!(visitor.awaiting());
    assert_eq!(visitor.path(), Vec::<String>::new());
    let listing = entries_in(small_tree().children.as_ref().unwrap());
    match visitor.step(WalkEvent::Listed(listing)) {
        WalkAction::Show { event, open } => {
            assert_eq!(event.label, "a");
            assert_eq!(event.depth, 1);
            assert!(!open);
        },
        WalkAction::Done => panic!("the root has entries"),
    }
    assert!(!visitor.awaiting());
    assert_eq!(visitor.path(), vec![String::from("a")]);
    assert_eq!(visitor.depth(), 1);
}

#[test]
fn the_visitor_tells_the_way_to_the_entry_shown_last() {
    let tree = deep_tree();
    let mut visitor = DirectoryVisitor::new(by_name());
    let mut action = visitor.step(WalkEvent::Root(tree.entry.clone()));
    let mut ways = Vec::new();
    loop {
        match action {
            WalkAction::Done => break,
            WalkAction::Show { event: _, open } => {
                ways.push(visitor.path().join("/"));
                let next = if open {
                    match &find(&tree, &visitor.path()).children {
                        Some(children) => WalkEvent::Listed(entries_in(children)),
                        None => WalkEvent::Unreadable,
                    }
                } else {
                    WalkEvent::Continue
                };
                action = visitor.step(next);
            },
        }
    }
    assert_eq!(ways, vec!["", "a", "a/x", "a/x/p", "a/y", "a/y/q", "b"]);
    assert_eq!(visitor.depth(), 0);
}

#[test]
fn the_visitor_is_done_when_nothing_was_begun() {
    let mut visitor = DirectoryVisitor::new(defaults());
    assert!(matches!(visitor.step(WalkEvent::Continue), WalkAction::Done));
    assert!(matches!(visitor.step(WalkEvent::Unreadable), WalkAction::Done));
    assert!(matches!(visitor.step(WalkEvent::Listed(vec![])), WalkAction::Done));
}

#[test]
fn the_visitor_drops_a_listing_that_it_did_not_ask_for() {
    let mut visitor = DirectoryVisitor::new(defaults());
    let root = file("notes.txt");
    match visitor.step(WalkEvent::Root(root.entry.clone())) {
        WalkAction::Show { event, open } => {
            assert_eq!(event.label, "notes.txt");
            assert!(!open);
        },
        WalkAction::Done => panic!("the root is always shown"),
    }
    let stray = entries_in(&vec![file("stray")]);
    assert!(matches!(visitor.step(WalkEvent::Listed(stray)), WalkAction::Done));
}

#[test]
fn the_visitor_leaves_a_directory_closed_when_told_to_go_on() {
    let tree = small_tree();
    let mut visitor = DirectoryVisitor::new(by_name());
    visitor.step(WalkEvent::Root(tree.entry.clone()));
    let listing = entries_in(tree.children.as_ref().unwrap());
    match visitor.step(WalkEvent::Listed(listing)) {
        WalkAction::Show { event, open } => {
            assert_eq!(event.label, "a");
            assert!(open);
        },
        WalkAction::Done => panic!("the root has entries"),
    }
    match visitor.step(WalkEvent::Unreadable) {
        WalkAction::Show { event, open } => {
            assert_eq!(event.label, "b");
            assert_eq!(event.depth, 1);
            assert!(!open);
        },
        WalkAction::Done => panic!("`b` is still to come"),
    }
    assert!(matches!(visitor.step(WalkEvent::Continue), WalkAction::Done));
}

#[test]
fn a_new_root_starts_a_walk_with_no_directory_open() {
    let tree = deep_tree();
    let mut visitor = DirectoryVisitor::new(by_name());
    visitor.step(WalkEvent::Root(tree.entry.clone()));
    visitor.step(WalkEvent::Listed(entries_in(tree.children.as_ref().unwrap())));
    let a = find(&tree, &[String::from("a")]);
    visitor.step(WalkEvent::Listed(entries_in(a.children.as_ref().unwrap())));
    assert_eq!(visitor.depth(), 2);
    match visitor.step(WalkEvent::Root(file("other").entry.clone())) {
        WalkAction::Show { event, open } => {
            assert_eq!(event.depth, 0);
            assert_eq!(event.guide_columns, Vec::<bool>::new());
            assert_eq!(event.label, "other");
            assert!(!open);
        },
        WalkAction::Done => panic!("the root is always shown"),
    }
    assert_eq!(visitor.depth(), 0);
    assert!(matches!(visitor.step(WalkEvent::Continue), WalkAction::Done));
}

#[test]
fn entries_in_copies_the_entries_in_order() {
    let nodes = vec![file("a"), dir("b", vec![file("c")]), file("d")];
    let entries = entries_in(&nodes);
    assert_eq!(entries.len(), 3);
    assert_eq!(entries[0], nodes[0].entry);
    assert_eq!(entries[1], nodes[1].entry);
    assert_eq!(entries[2], nodes[2].entry);
}
