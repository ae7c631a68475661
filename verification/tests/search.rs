use gitpeek::config::CliArgs;
use gitpeek::gitseek::{fetch_git_dir, get_dir_list, recursive_search, DirType, Entry};
use std::collections::HashMap;

type Disk = HashMap<String, Vec<Entry>>;

fn dir(parent: &str, name: &str) -> Entry {
    Entry { path: format!("{}/{}", parent, name), name: name.to_string(), is_dir: true }
}

fn file(parent: &str, name: &str) -> Entry {
    Entry { path: format!("{}/{}", parent, name), name: name.to_string(), is_dir: false }
}

fn copy(listing: &Vec<Entry>) -> Vec<Entry> {
    listing
        .iter()
        .map(|e| Entry { path: e.path.clone(), name: e.name.clone(), is_dir: e.is_dir })
        .collect()
}

fn args(start: &str, max_depth: i8, ignore: &[&str]) -> CliArgs {
    CliArgs {
        dir: start.to_string(),
        max_depth,
        ignore_list: ignore.iter().map(|s| s.to_string()).collect(),
    }
}

/// Runs a search against a disk held in memory; a directory that the disk
/// does not hold cannot be listed. Returns the roots and the directories
/// that were listed, in order.
fn run(disk: &Disk, a: CliArgs) -> Result<(Vec<String>, Vec<String>), (String, String)> {
    let mut search = recursive_search(a);
    let mut listed = Vec::new();
    while let Some(want) = search.wanted() {
        listed.push(want.clone());
        let event = match disk.get(&want) {
            Some(l) => Ok(copy(l)),
            None => Err("not found".to_string()),
        };
        search = match search.supply(event) {
            Ok(s) => s,
            Err(e) => return Err((e.path, e.cause)),
        };
    }
    assert!(search.finished());
    Ok((search.into_found(), listed))
}

fn work_disk() -> Disk {
    let mut disk = Disk::new();
    disk.insert("/work".into(), vec![dir("/work", "a"), dir("/work", "b"), file("/work", "notes")]);
    disk.insert("/work/a".into(), vec![dir("/work/a", ".git"), dir("/work/a", "src")]);
    disk.insert("/work/b".into(), vec![dir("/work/b", ".git")]);
    disk.insert("/work/a/.git".into(), vec![file("/work/a/.git", "HEAD")]);
    disk.insert("/work/b/.git".into(), vec![file("/work/b/.git", "HEAD")]);
    disk.insert("/work/a/src".into(), vec![]);
    disk
}

fn kinds(v: &Vec<DirType>) -> Vec<(bool, String)> {
    v.iter()
        .map(|d| match d {
            DirType::GitDir(p) => (true, p.clone()),
            DirType::NormalDir(p) => (false, p.clone()),
        })
        .collect()
}

#[test]
fn two_repositories_at_depth_one() {
    let (roots, listed) = run(&work_disk(), args("/work", 1, &[])).unwrap();
    assert_eq!(roots, vec!["/work/a".to_string(), "/work/b".to_string()]);
    assert_eq!(listed, vec!["/work".to_string(), "/work/a".to_string(), "/work/b".to_string()]);
}

#[test]
fn depth_zero_reaches_no_nested_repository() {
    let (roots, listed) = run(&work_disk(), args("/work", 0, &[])).unwrap();
    assert!(roots.is_empty());
    assert_eq!(listed, vec!["/work".to_string(), "/work/a".to_string(), "/work/b".to_string()]);
}

#[test]
fn negative_depth_lists_the_start_and_finds_nothing() {
    let (roots, listed) = run(&work_disk(), args("/work", -3, &[])).unwrap();
    assert!(roots.is_empty());
    assert_eq!(listed, vec!["/work".to_string()]);
}

#[test]
fn start_that_is_a_repository_is_reported_at_once() {
    let (roots, listed) = run(&work_disk(), args("/work/a", 0, &[])).unwrap();
    assert_eq!(roots, vec!["/work/a".to_string()]);
    assert_eq!(listed, vec!["/work/a".to_string()]);
}

#[test]
fn repository_is_never_descended_into() {
    let (roots, listed) = run(&work_disk(), args("/work", 5, &[])).unwrap();
    assert_eq!(roots, vec!["/work/a".to_string(), "/work/b".to_string()]);
    assert!(!listed.contains(&"/work/a/src".to_string()));
    assert!(!listed.contains(&"/work/a/.git".to_string()));
}

#[test]
fn depth_bounds_the_levels() {
    let mut disk = Disk::new();
    disk.insert("/r".into(), vec![dir("/r", "x")]);
    disk.insert("/r/x".into(), vec![dir("/r/x", "y")]);
    disk.insert("/r/x/y".into(), vec![dir("/r/x/y", "z")]);
    disk.insert("/r/x/y/z".into(), vec![dir("/r/x/y/z", ".git")]);
    for depth in 0..3 {
        let (roots, _) = run(&disk, args("/r", depth, &[])).unwrap();
        assert!(roots.is_empty(), "depth {}", depth);
    }
    for depth in 3..6 {
        let (roots, _) = run(&disk, args("/r", depth, &[])).unwrap();
        assert_eq!(roots, vec!["/r/x/y/z".to_string()], "depth {}", depth);
    }
    let (_, listed) = run(&disk, args("/r", 1, &[])).unwrap();
    assert_eq!(listed, vec!["/r".to_string(), "/r/x".to_string(), "/r/x/y".to_string()]);
}

#[test]
fn ignoring_the_marker_makes_a_repository_plain() {
    let (roots, listed) = run(&work_disk(), args("/work", 3, &[".git"])).unwrap();
    assert!(roots.is_empty());
    assert!(listed.contains(&"/work/a/src".to_string()));
    assert!(!listed.contains(&"/work/a/.git".to_string()));
    let a = args("/work", 1, &[".git"]);
    let out = get_dir_list(&a, &"/work/a".to_string(), &work_disk()["/work/a"]);
    assert_eq!(kinds(&out), vec![(false, "/work/a/src".to_string())]);
}

#[test]
fn ignored_names_are_neither_found_nor_entered() {
    let mut disk = work_disk();
    disk.insert("/work/a/src".into(), vec![dir("/work/a/src", "b")]);
    disk.insert("/work/a/src/b".into(), vec![dir("/work/a/src/b", ".git")]);
    let (roots, listed) = run(&disk, args("/work", 4, &["b"])).unwrap();
    assert_eq!(roots, vec!["/work/a".to_string()]);
    assert!(listed.iter().all(|p| !p.ends_with("/b")));
    let (roots, listed) = run(&disk, args("/work/a/src", 4, &["b"])).unwrap();
    assert!(roots.is_empty());
    assert_eq!(listed, vec!["/work/a/src".to_string()]);
}

#[test]
fn start_directory_name_is_not_held_against_the_ignore_list() {
    let (roots, _) = run(&work_disk(), args("/work/b", 0, &["b"])).unwrap();
    assert_eq!(roots, vec!["/work/b".to_string()]);
}

#[test]
fn empty_start_directory_yields_nothing() {
    let mut disk = Disk::new();
    disk.insert("/empty".into(), vec![]);
    for depth in [0i8, 1, 2, 50, 127] {
        let (roots, listed) = run(&disk, args("/empty", depth, &[])).unwrap();
        assert!(roots.is_empty());
        assert_eq!(listed, vec!["/empty".to_string()]);
    }
}

#[test]
fn searching_twice_gives_the_same_roots() {
    let disk = work_disk();
    let first = run(&disk, args("/work", 2, &[])).unwrap();
    let second = run(&disk, args("/work", 2, &[])).unwrap();
    assert_eq!(first, second);
}

#[test]
fn unreadable_directory_fails_the_whole_search() {
    let mut disk = work_disk();
    disk.insert("/work".into(), vec![dir("/work", "b"), dir("/work", "gone"), dir("/work", "a")]);
    let failed = run(&disk, args("/work", 1, &[]));
    assert_eq!(failed, Err(("/work/gone".to_string(), "not found".to_string())));
    let failed = run(&Disk::new(), args("/nowhere", 0, &[]));
    assert_eq!(failed, Err(("/nowhere".to_string(), "not found".to_string())));
}

#[test]
fn finished_search_ignores_further_listings() {
    let mut disk = Disk::new();
    disk.insert("/r".into(), vec![dir("/r", ".git")]);
    let mut search = recursive_search(args("/r", 0, &[]));
    search = match search.supply(Ok(copy(&disk["/r"]))) {
        Ok(s) => s,
        Err(_) => panic!("a listing was supplied"),
    };
    assert!(search.finished());
    assert!(search.wanted().is_none());
    search = match search.supply(Err("late".to_string())) {
        Ok(s) => s,
        Err(_) => panic!("nothing was wanted"),
    };
    assert_eq!(search.into_found(), vec!["/r".to_string()]);
}

#[test]
fn classification_keeps_listing_order_and_drops_files() {
    let a = args("/w", 1, &["skip"]);
    let listing = vec![
        dir("/w", "zeta"),
        file("/w", "alpha"),
        dir("/w", "skip"),
        file("/w", ".git"),
        dir("/w", "beta"),
    ];
    let out = get_dir_list(&a, &"/w".to_string(), &listing);
    assert_eq!(kinds(&out), vec![(false, "/w/zeta".to_string()), (false, "/w/beta".to_string())]);
}

#[test]
fn marker_wins_over_everything_else_in_the_listing() {
    let a = args("/w", 1, &["skip"]);
    let listing = vec![dir("/w", "zeta"), dir("/w", ".git"), dir("/w", "beta"), file("/w", "f")];
    let out = get_dir_list(&a, &"/w".to_string(), &listing);
    assert_eq!(kinds(&out), vec![(true, "/w".to_string())]);
}

#[test]
fn marker_match_is_exact_and_case_sensitive() {
    let a = args("/w", 1, &["Skip"]);
    let listing = vec![dir("/w", ".GIT"), dir("/w", ".git2"), dir("/w", "skip")];
    let out = get_dir_list(&a, &"/w".to_string(), &listing);
    assert_eq!(
        kinds(&out),
        vec![
            (false, "/w/.GIT".to_string()),
            (false, "/w/.git2".to_string()),
            (false, "/w/skip".to_string())
        ]
    );
}

#[test]
fn driver_pairs_each_root_with_its_branch() {
    let out = fetch_git_dir(vec![
        ("/work/a".to_string(), Some("ref: refs/heads/main\n".to_string())),
        ("/work/b".to_string(), None),
        ("/work/c".to_string(), Some("0123456789abcdef0123456789abcdef01234567\n".to_string())),
    ]);
    assert_eq!(out.len(), 3);
    assert_eq!((out[0].dir.as_str(), out[0].git_ref.as_str()), ("/work/a", "main"));
    assert_eq!((out[1].dir.as_str(), out[1].git_ref.as_str()), ("/work/b", ""));
    assert_eq!((out[2].dir.as_str(), out[2].git_ref.as_str()), ("/work/c", ""));
    assert_eq!(out[0].label("a"), "a (main)");
    assert_eq!(out[1].label("."), ". ()");
}
