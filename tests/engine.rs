use std::collections::{HashMap, HashSet};

use syncdir::{
    check_roots, parse_cron, plan_copies, task_step, verbosity, wait_millis, walk_items,
    CopyFailure, CopyTask, DestinationAction, DestinationState, FirstFailure, FsPath, InputError,
    PlanError, RootProbe, ScheduleError, SourceListing, TaskStep, Verbosity, Walk, WalkEntry,
    WalkError,
};

fn p(s: &str) -> FsPath {
    let mut parts = vec!["/".to_string()];
    for c in s.split('/').filter(|c| !c.is_empty()) {
        parts.push(c.to_string());
    }
    FsPath::new(parts)
}

fn key(f: &FsPath) -> String {
    f.parts[1..].join("/")
}

/// A destination tree: each file's path and its contents.
type Tree = HashMap<String, String>;

/// Runs the tasks the way a worker does, one step each.
fn run(tasks: &[CopyTask], contents: &Tree, tree: &mut Tree) -> Result<(), CopyFailure> {
    let mut cell = FirstFailure::new();
    for t in tasks {
        let dest = key(&t.dest);
        let parent = t.dest.parent().unwrap();
        let parent_exists = tree.keys().any(|k| {
            let pk = key(&parent);
            pk.is_empty() || k.starts_with(&format!("{}/", pk))
        });
        match task_step(tree.contains_key(&dest), parent_exists) {
            TaskStep::Skip => {}
            TaskStep::Copy | TaskStep::CreateParentThenCopy => match contents.get(&key(&t.source)) {
                Some(c) => {
                    tree.insert(dest, c.clone());
                }
                None => cell.record(CopyFailure {
                    source: t.source.duplicate(),
                    dest: t.dest.duplicate(),
                    cause: "no such file".to_string(),
                }),
            },
        }
    }
    cell.outcome()
}

fn listing(root: &str, files: &[&str]) -> SourceListing {
    SourceListing {
        root: p(root),
        files: files.iter().map(|f| p(&format!("{}/{}", root, f))).collect(),
    }
}

fn tree_files(root: &str, tree: &Tree) -> Vec<FsPath> {
    tree.keys().map(|k| p(k)).filter(|f| key(f).starts_with(&format!("{}/", root.trim_start_matches('/')))).collect()
}

fn scenario_sources() -> (Vec<SourceListing>, Tree) {
    let sources = vec![listing("/A", &["x/1.txt", "x/2.txt"]), listing("/B", &["y/3.txt"])];
    let mut contents = Tree::new();
    contents.insert("A/x/1.txt".to_string(), "one".to_string());
    contents.insert("A/x/2.txt".to_string(), "two".to_string());
    contents.insert("B/y/3.txt".to_string(), "three".to_string());
    (sources, contents)
}

fn dest_view(tree: &Tree) -> HashMap<String, String> {
    tree.iter()
        .filter(|(k, _)| k.starts_with("D/"))
        .map(|(k, v)| (k["D/".len()..].to_string(), v.clone()))
        .collect()
}

/// A tree of files and directories laid out level by level, as a walk
/// reports it: the entries and the files among them.
fn sample_tree(root: &str) -> (Vec<WalkEntry>, Vec<String>) {
    let mut entries = vec![WalkEntry::Other(p(root))];
    let mut files = vec![];
    let mut dirs = vec![root.to_string()];
    for i in 0..4 {
        let mut next = vec![];
        for (n, d) in dirs.iter().enumerate() {
            for j in 0..5 {
                let f = format!("{}/test_{}_{}.txt", d, i, j);
                entries.push(WalkEntry::File(p(&f)));
                files.push(f);
            }
            for j in 0..3 {
                let sub = format!("{}/test_dir_{}_{}", d, i, j);
                entries.push(WalkEntry::Other(p(&sub)));
                if (n + j) % 2 == 0 {
                    next.push(sub);
                }
            }
        }
        dirs = next;
    }
    (entries, files)
}

#[test]
fn test_walk() {
    let (entries, files) = sample_tree("/tmp/walk");
    let items = walk_items(&entries).ok().unwrap();
    assert_eq!(items.files.len(), files.len());
    assert_eq!(
        items.files.iter().map(|f| format!("/{}", key(f))).collect::<HashSet<_>>(),
        files.iter().cloned().collect::<HashSet<_>>()
    );
}

#[test]
fn test_try_copy() {
    let (entries, files) = sample_tree("/from");
    let walk = walk_items(&entries).ok().unwrap();
    let sources = vec![SourceListing { root: p("/from"), files: walk.files }];
    let contents: Tree = files.iter().map(|f| (f[1..].to_string(), f.clone())).collect();
    let tasks = plan_copies(&sources, &p("/to"), &vec![]).ok().unwrap();
    let mut tree = Tree::new();
    assert!(run(&tasks, &contents, &mut tree).is_ok());
    let to_files = tree_files("/to", &tree);
    assert_eq!(files.len(), to_files.len());
    let from_rel: HashSet<String> = files.iter().map(|f| f["/from/".len()..].to_string()).collect();
    let to_rel: HashSet<String> = to_files.iter().map(|f| key(f)["to/".len()..].to_string()).collect();
    assert_eq!(from_rel, to_rel);
}

#[test]
fn copies_into_empty_destination() {
    let (sources, contents) = scenario_sources();
    let tasks = plan_copies(&sources, &p("/D"), &vec![]).ok().unwrap();
    assert_eq!(tasks.len(), 3);
    let mut tree = Tree::new();
    assert!(run(&tasks, &contents, &mut tree).is_ok());
    let d = dest_view(&tree);
    assert_eq!(d.len(), 3);
    assert_eq!(d["x/1.txt"], "one");
    assert_eq!(d["x/2.txt"], "two");
    assert_eq!(d["y/3.txt"], "three");
}

#[test]
fn existing_destination_file_is_kept() {
    let (sources, contents) = scenario_sources();
    let mut tree = Tree::new();
    tree.insert("D/x/1.txt".to_string(), "older".to_string());
    let tasks = plan_copies(&sources, &p("/D"), &tree_files("/D", &tree)).ok().unwrap();
    assert_eq!(tasks.len(), 2);
    assert!(tasks.iter().all(|t| key(&t.dest) != "D/x/1.txt"));
    assert!(run(&tasks, &contents, &mut tree).is_ok());
    let d = dest_view(&tree);
    assert_eq!(d.len(), 3);
    assert_eq!(d["x/1.txt"], "older");
    assert_eq!(d["x/2.txt"], "two");
    assert_eq!(d["y/3.txt"], "three");
}

#[test]
fn missing_source_root_stops_before_any_work() {
    let probes = vec![
        RootProbe { path: p("/A"), exists: true },
        RootProbe { path: p("/nowhere"), exists: false },
    ];
    let r = check_roots(&probes, DestinationState::Missing);
    assert!(matches!(r, Err(InputError::MissingSource { index: 1 })));
    assert!(!matches!(r, Ok(DestinationAction::Create)));
}

#[test]
fn second_run_copies_nothing() {
    let (sources, contents) = scenario_sources();
    let mut tree = Tree::new();
    tree.insert("D/x/1.txt".to_string(), "older".to_string());
    let first = plan_copies(&sources, &p("/D"), &tree_files("/D", &tree)).ok().unwrap();
    assert!(run(&first, &contents, &mut tree).is_ok());
    let after_first = tree.clone();
    let second = plan_copies(&sources, &p("/D"), &tree_files("/D", &tree)).ok().unwrap();
    assert!(second.is_empty());
    assert!(run(&second, &contents, &mut tree).is_ok());
    assert_eq!(tree, after_first);
}

#[test]
fn task_order_does_not_change_the_result() {
    let (sources, contents) = scenario_sources();
    let tasks = plan_copies(&sources, &p("/D"), &vec![]).ok().unwrap();
    let mut forward = Tree::new();
    assert!(run(&tasks, &contents, &mut forward).is_ok());
    let reversed: Vec<CopyTask> = tasks
        .iter()
        .rev()
        .map(|t| CopyTask { source: t.source.duplicate(), dest: t.dest.duplicate() })
        .collect();
    let mut backward = Tree::new();
    assert!(run(&reversed, &contents, &mut backward).is_ok());
    assert_eq!(forward, backward);
}

#[test]
fn colliding_sources_give_one_file() {
    let sources = vec![listing("/A", &["same.txt"]), listing("/B", &["same.txt"])];
    let mut contents = Tree::new();
    contents.insert("A/same.txt".to_string(), "from a".to_string());
    contents.insert("B/same.txt".to_string(), "from b".to_string());
    let tasks = plan_copies(&sources, &p("/D"), &vec![]).ok().unwrap();
    assert_eq!(tasks.len(), 1);
    let mut tree = Tree::new();
    assert!(run(&tasks, &contents, &mut tree).is_ok());
    let d = dest_view(&tree);
    assert_eq!(d.len(), 1);
    assert!(d["same.txt"] == "from a" || d["same.txt"] == "from b");
}

#[test]
fn file_outside_its_root_is_a_mapping_error() {
    let sources = vec![
        listing("/A", &["ok.txt"]),
        SourceListing { root: p("/B"), files: vec![p("/B/fine.txt"), p("/C/stray.txt")] },
    ];
    let r = plan_copies(&sources, &p("/D"), &vec![]);
    assert!(matches!(r, Err(PlanError::PathMapping { listing: 1, file: 1 })));
}

#[test]
fn planned_destination_joins_relative_path() {
    let sources = vec![listing("/src/a", &["deep/er/f.bin"])];
    let tasks = plan_copies(&sources, &p("/dst"), &vec![]).ok().unwrap();
    assert_eq!(tasks.len(), 1);
    assert_eq!(tasks[0].dest.parts, vec!["/", "dst", "deep", "er", "f.bin"]);
    assert_eq!(tasks[0].source.parts, vec!["/", "src", "a", "deep", "er", "f.bin"]);
}

#[test]
fn duplicate_sources_are_refused() {
    let probes = vec![
        RootProbe { path: p("/A"), exists: true },
        RootProbe { path: p("/B"), exists: false },
        RootProbe { path: p("/A/"), exists: true },
    ];
    assert!(matches!(check_roots(&probes, DestinationState::Directory), Err(InputError::DuplicateInput)));
}

#[test]
fn destination_states() {
    let probes = vec![RootProbe { path: p("/A"), exists: true }];
    assert!(matches!(check_roots(&probes, DestinationState::Missing), Ok(DestinationAction::Create)));
    assert!(matches!(check_roots(&probes, DestinationState::Directory), Ok(DestinationAction::Use)));
    assert!(matches!(
        check_roots(&probes, DestinationState::NotDirectory),
        Err(InputError::InvalidDestination)
    ));
}

#[test]
fn unreadable_entries_are_skipped() {
    let entries = vec![
        WalkEntry::Other(p("/r")),
        WalkEntry::File(p("/r/a")),
        WalkEntry::Unreadable { depth: 2 },
        WalkEntry::File(p("/r/b/c")),
        WalkEntry::Unreadable { depth: 1 },
    ];
    let w: Walk = walk_items(&entries).ok().unwrap();
    assert_eq!(w.skipped, 2);
    assert_eq!(w.files.iter().map(key).collect::<Vec<_>>(), vec!["r/a", "r/b/c"]);
}

#[test]
fn unreadable_root_fails_the_walk() {
    let entries = vec![WalkEntry::Unreadable { depth: 0 }];
    assert!(matches!(walk_items(&entries), Err(WalkError::RootUnreadable)));
    let empty: Vec<WalkEntry> = vec![];
    let w = walk_items(&empty).ok().unwrap();
    assert!(w.files.is_empty());
    assert_eq!(w.skipped, 0);
}

#[test]
fn task_steps() {
    assert!(matches!(task_step(true, true), TaskStep::Skip));
    assert!(matches!(task_step(true, false), TaskStep::Skip));
    assert!(matches!(task_step(false, true), TaskStep::Copy));
    assert!(matches!(task_step(false, false), TaskStep::CreateParentThenCopy));
}

#[test]
fn first_failure_wins() {
    let mut cell = FirstFailure::new();
    assert!(cell.is_clear());
    cell.record(CopyFailure { source: p("/a"), dest: p("/d/a"), cause: "first".to_string() });
    cell.record(CopyFailure { source: p("/b"), dest: p("/d/b"), cause: "second".to_string() });
    assert!(!cell.is_clear());
    let f = cell.outcome().err().unwrap();
    assert_eq!(f.cause, "first");
    assert_eq!(key(&f.source), "a");
    assert!(FirstFailure::new().outcome().is_ok());
}

#[test]
fn path_operations() {
    let f = p("/a/b/c");
    assert_eq!(f.relative_to(&p("/a")).unwrap().parts, vec!["b", "c"]);
    assert!(f.relative_to(&p("/b")).is_none());
    assert!(p("/a").relative_to(&p("/a/b")).is_none());
    assert_eq!(p("/x").join(&FsPath::new(vec!["y".to_string()])).parts, vec!["/", "x", "y"]);
    assert_eq!(f.parent().unwrap().parts, vec!["/", "a", "b"]);
    assert!(FsPath::new(vec![]).parent().is_none());
    assert!(f.same_as(&p("/a/b/c")));
    assert!(!f.same_as(&p("/a/b")));
    assert_eq!(f.len(), 4);
    assert!(syncdir::path::contains_path(&vec![p("/q"), p("/a/b/c")], &f));
}

#[test]
fn waiting_times() {
    assert_eq!(wait_millis(1_500, 1_000), 500);
    assert_eq!(wait_millis(1_000, 1_000), 0);
    assert_eq!(wait_millis(900, 1_000), 0);
    assert_eq!(wait_millis(i64::MAX, i64::MIN), u64::MAX);
}

#[test]
fn verbosity_levels() {
    assert!(matches!(verbosity(0), Some(Verbosity::Error)));
    assert!(matches!(verbosity(2), Some(Verbosity::Info)));
    assert!(matches!(verbosity(4), Some(Verbosity::Trace)));
    assert!(verbosity(5).is_none());
}

#[test]
fn cron_expressions() {
    assert!(parse_cron("0 30 9 * * * *").is_ok());
    assert!(matches!(parse_cron("every day"), Err(ScheduleError::InvalidExpression(_))));
}
